//! HTML querying with resource limits: the size of the input, the number
//! of matches and the total size of what a query copies out are bounded.

use vstd::prelude::*;
use vstd::string::StringSliceAdditionalSpecFns;
use vstd::utf8::encode_utf8;

verus! {

/// The largest HTML input, in bytes.
pub const MAX_INPUT_BYTES: usize = 8388608;

/// The largest total size, in bytes, of what one query copies out.
pub const MAX_OUTPUT_BYTES: usize = 16777216;

/// The largest number of elements one query returns.
pub const MAX_MATCHES: usize = 10000;

#[verifier::external_type_specification]
#[verifier::external_body]
pub struct ExHtml(scraper::Html);

#[verifier::external_type_specification]
#[verifier::external_body]
pub struct ExSelector(scraper::Selector);

#[verifier::external_type_specification]
#[verifier::external_body]
pub struct ExSelect<'a, 'b>(scraper::html::Select<'a, 'b>);

/// What a query copies out of one matched element: its tag name, its text,
/// its outer and inner HTML, and its attributes.
#[derive(Debug)]
pub struct ElementData {
    pub tag: String,
    pub text: String,
    pub html: String,
    pub inner_html: String,
    pub attrs: Vec<(String, String)>,
}

/// The mathematical form of `ElementData`.
pub struct ElementView {
    pub tag: Seq<char>,
    pub text: Seq<char>,
    pub html: Seq<char>,
    pub inner_html: Seq<char>,
    pub attrs: Seq<(Seq<char>, Seq<char>)>,
}

impl ElementData {
    pub open spec fn view_of(self) -> ElementView {
        ElementView {
            tag: self.tag@,
            text: self.text@,
            html: self.html@,
            inner_html: self.inner_html@,
            attrs: Seq::new(self.attrs@.len(), |i: int| (self.attrs@[i].0@, self.attrs@[i].1@)),
        }
    }
}

/// The number of bytes (UTF-8) of a text, as `str::len` reports it.
pub open spec fn byte_len(s: Seq<char>) -> int {
    (encode_utf8(s).len() as usize) as int
}

/// The bytes of the first `n` attributes' names and values.
pub open spec fn attrs_bytes(attrs: Seq<(Seq<char>, Seq<char>)>, n: nat) -> int
    decreases n,
{
    if n == 0 || n > attrs.len() {
        0
    } else {
        attrs_bytes(attrs, (n - 1) as nat) + byte_len(attrs[n - 1].0) + byte_len(attrs[n - 1].1)
    }
}

/// The bytes a query copies out for one element.
#[verifier::opaque]
pub open spec fn element_bytes(e: ElementView) -> int {
    byte_len(e.tag) + byte_len(e.text) + byte_len(e.html) + byte_len(e.inner_html) + attrs_bytes(e.attrs, e.attrs.len())
}

/// Whether `scraper::Selector::parse` accepts a selector list.
pub uninterp spec fn selector_parses(selector: Seq<char>) -> bool;

/// The elements, in document order, that a selector list matches in the
/// document parsed from `html`.
pub uninterp spec fn document_matches(html: Seq<char>, selector: Seq<char>) -> Seq<ElementView>;

/// The text of the root element of the document parsed from `html`.
pub uninterp spec fn document_text(html: Seq<char>) -> Seq<char>;

/// The elements a selection has not yet handed out.
pub uninterp spec fn pending_matches(it: scraper::html::Select<'_, '_>) -> Seq<ElementView>;

/// A parsed document together with its source text.
pub struct Document {
    source: String,
    html: scraper::Html,
}

impl Document {
    /// The text the document was parsed from.
    pub closed spec fn source_view(self) -> Seq<char> {
        self.source@
    }
}

/// A parsed selector list together with its source text.
pub struct CssSelector {
    source: String,
    selector: scraper::Selector,
}

impl CssSelector {
    /// The text the selector list was parsed from.
    pub closed spec fn source_view(self) -> Seq<char> {
        self.source@
    }
}

/// Parses a selector list.
///
/// Trusted: calls `scraper::Selector::parse`; the contract claims success
/// is `selector_parses` of the text.
#[verifier::external_body]
fn parse_selector(selector: &str) -> (r: Option<CssSelector>)
    ensures
        r is Some <==> selector_parses(selector@),
        r matches Some(s) ==> s.source_view() == selector@,
{
    scraper::Selector::parse(selector).ok().map(|s| CssSelector { source: selector.to_string(), selector: s })
}

/// Parses an HTML document (parsing never fails: errors are recovered).
///
/// Trusted: calls `scraper::Html::parse_document`.
#[verifier::external_body]
fn parse_document(html: &str) -> (r: Document)
    ensures
        r.source_view() == html@,
{
    Document { source: html.to_string(), html: scraper::Html::parse_document(html) }
}

/// The elements of a document that a selector list matches.
///
/// Trusted: calls `scraper::Html::select`; the contract claims the
/// selection will hand out `document_matches` of the two source texts.
#[verifier::external_body]
fn select<'a, 'b>(doc: &'a Document, sel: &'b CssSelector) -> (r: scraper::html::Select<'a, 'b>)
    ensures
        pending_matches(r) == document_matches(doc.source_view(), sel.source_view()),
{
    doc.html.select(&sel.selector)
}

/// The next matched element, copied out.
///
/// Trusted: calls `Select::next` and reads the element's `name`, `text`,
/// `html`, `inner_html` and `attrs`; the contract claims it hands out the
/// first pending element and leaves the rest pending.
#[verifier::external_body]
fn next_match(it: &mut scraper::html::Select<'_, '_>) -> (r: Option<ElementData>)
    ensures
        match r {
            Some(e) => pending_matches(*old(it)).len() > 0 && e.view_of() == pending_matches(*old(it))[0]
                && pending_matches(*final(it)) == pending_matches(*old(it)).drop_first(),
            None => pending_matches(*old(it)).len() == 0,
        },
{
    it.next().map(|el| ElementData {
        tag: el.value().name().to_string(),
        text: el.text().collect::<String>(),
        html: el.html(),
        inner_html: el.inner_html(),
        attrs: el.value().attrs().map(|(k, v)| (k.to_string(), v.to_string())).collect(),
    })
}

/// The text of a document's root element.
///
/// Trusted: calls `Html::root_element` and collects its `text`; the
/// contract claims it is `document_text` of the source.
#[verifier::external_body]
fn root_text(doc: &Document) -> (r: String)
    ensures
        r@ == document_text(doc.source_view()),
{
    doc.html.root_element().text().collect::<String>()
}

/// Why an HTML request was refused.
#[derive(Debug, Clone, Copy, PartialEq, Eq, Structural)]
pub enum HtmlError {
    /// The input is longer than `MAX_INPUT_BYTES` bytes.
    InputTooLarge,
    /// The selector matches more than `MAX_MATCHES` elements.
    TooManyMatches,
    /// The copied-out elements exceed `MAX_OUTPUT_BYTES` bytes.
    OutputTooLarge,
}

/// `x`, but no more than `usize::MAX`.
pub open spec fn capped(x: int) -> int {
    if x > usize::MAX {
        usize::MAX as int
    } else {
        x
    }
}

fn sat_add(a: usize, b: usize) -> (r: usize)
    ensures
        r == capped(a + b),
{
    if a > usize::MAX - b {
        usize::MAX
    } else {
        a + b
    }
}

/// The bytes a query copies out for one element (capped at `usize::MAX`).
pub fn element_size(e: &ElementData) -> (r: usize)
    ensures
        r == capped(element_bytes(e.view_of())),
{
    reveal(element_bytes);
    let ghost ev = e.view_of();
    let mut total = sat_add(e.tag.as_str().len(), e.text.as_str().len());
    total = sat_add(total, e.html.as_str().len());
    total = sat_add(total, e.inner_html.as_str().len());
    let ghost base = byte_len(ev.tag) + byte_len(ev.text) + byte_len(ev.html) + byte_len(ev.inner_html);
    assert(total == capped(base));
    let n = e.attrs.len();
    for i in 0..n
        invariant
            n == e.attrs@.len(),
            ev == e.view_of(),
            base == byte_len(ev.tag) + byte_len(ev.text) + byte_len(ev.html) + byte_len(ev.inner_html),
            total == capped(base + attrs_bytes(ev.attrs, i as nat)),
            attrs_bytes(ev.attrs, i as nat) >= 0,
    {
        assert(ev.attrs[i as int] == (e.attrs@[i as int].0@, e.attrs@[i as int].1@));
        total = sat_add(total, e.attrs[i].0.as_str().len());
        total = sat_add(total, e.attrs[i].1.as_str().len());
    }
    total
}

/// The outcome of copying out matched elements from position `i` on, with
/// `total` bytes copied so far: a match past `MAX_MATCHES` refuses the
/// query, and so does a running total over `MAX_OUTPUT_BYTES`.
pub open spec fn query_scan(ms: Seq<ElementView>, i: nat, total: int) -> Result<(), HtmlError>
    decreases ms.len() - i,
{
    if i >= ms.len() {
        Ok(())
    } else if i >= MAX_MATCHES {
        Err(HtmlError::TooManyMatches)
    } else if total + element_bytes(ms[i as int]) > MAX_OUTPUT_BYTES {
        Err(HtmlError::OutputTooLarge)
    } else {
        query_scan(ms, i + 1, total + element_bytes(ms[i as int]))
    }
}

/// The mathematical form of copied-out elements.
pub open spec fn elements_view(rows: Seq<ElementData>) -> Seq<ElementView> {
    Seq::new(rows.len(), |i: int| rows[i].view_of())
}

/// The total bytes of the first `n` elements.
pub open spec fn total_bytes(ms: Seq<ElementView>, n: nat) -> int
    decreases n,
{
    if n == 0 || n > ms.len() {
        0
    } else {
        total_bytes(ms, (n - 1) as nat) + element_bytes(ms[n - 1])
    }
}

proof fn lemma_capped_add(a: int, b: int)
    requires
        a >= 0,
        b >= 0,
    ensures
        capped(capped(a) + capped(b)) == capped(a + b),
        capped(a + b) > MAX_OUTPUT_BYTES <==> a + b > MAX_OUTPUT_BYTES,
{
}

proof fn lemma_attrs_bytes_nonneg(attrs: Seq<(Seq<char>, Seq<char>)>, n: nat)
    ensures
        attrs_bytes(attrs, n) >= 0,
    decreases n,
{
    if 0 < n <= attrs.len() {
        lemma_attrs_bytes_nonneg(attrs, (n - 1) as nat);
    }
}

proof fn lemma_total_bytes_step(ms: Seq<ElementView>, i: nat)
    requires
        i < ms.len(),
    ensures
        total_bytes(ms, i + 1) == total_bytes(ms, i) + element_bytes(ms[i as int]),
        element_bytes(ms[i as int]) >= 0,
{
    reveal(element_bytes);
    lemma_attrs_bytes_nonneg(ms[i as int].attrs, ms[i as int].attrs.len());
}

proof fn lemma_total_bytes_monotone(ms: Seq<ElementView>, i: nat, n: nat)
    requires
        i <= n <= ms.len(),
    ensures
        total_bytes(ms, i) <= total_bytes(ms, n),
    decreases n - i,
{
    if i < n {
        lemma_total_bytes_step(ms, (n - 1) as nat);
        lemma_total_bytes_monotone(ms, i, (n - 1) as nat);
    }
}

proof fn lemma_query_scan_from(ms: Seq<ElementView>, i: nat)
    requires
        i <= ms.len(),
        i <= MAX_MATCHES,
        total_bytes(ms, i) <= MAX_OUTPUT_BYTES,
    ensures
        query_scan(ms, i, total_bytes(ms, i)) is Ok <==> (ms.len() <= MAX_MATCHES && total_bytes(ms, ms.len()) <= MAX_OUTPUT_BYTES),
    decreases ms.len() - i,
{
    if i < ms.len() {
        lemma_total_bytes_step(ms, i);
        lemma_total_bytes_monotone(ms, i + 1, ms.len());
        if i < MAX_MATCHES && total_bytes(ms, i + 1) <= MAX_OUTPUT_BYTES {
            lemma_query_scan_from(ms, i + 1);
        }
    }
}

/// Law: the matches of a query are handed out exactly when there are at
/// most `MAX_MATCHES` of them and their copied-out size is at most
/// `MAX_OUTPUT_BYTES` in total.
pub proof fn lemma_query_within_limits(ms: Seq<ElementView>)
    ensures
        query_scan(ms, 0, 0) is Ok <==> (ms.len() <= MAX_MATCHES && total_bytes(ms, ms.len()) <= MAX_OUTPUT_BYTES),
{
    lemma_query_scan_from(ms, 0);
}

/// Copies out the elements of `html` that `selector` matches, in document
/// order. The input must be at most `MAX_INPUT_BYTES` bytes; a selector list
/// that does not parse matches nothing; more than `MAX_MATCHES` matches, or
/// copied-out elements over `MAX_OUTPUT_BYTES` bytes in total, refuse the
/// query.
pub fn query(html: &str, selector: &str) -> (r: Result<Vec<ElementData>, HtmlError>)
    ensures
        html.len() > MAX_INPUT_BYTES ==> (r matches Err(e) && e == HtmlError::InputTooLarge),
        html.len() <= MAX_INPUT_BYTES && !selector_parses(selector@) ==> (r matches Ok(rows) && rows@.len() == 0),
        html.len() <= MAX_INPUT_BYTES && selector_parses(selector@) ==> match query_scan(document_matches(html@, selector@), 0, 0) {
            Ok(()) => (r matches Ok(rows) && elements_view(rows@) == document_matches(html@, selector@)),
            Err(e) => (r matches Err(e2) && e2 == e),
        },
{
    if html.len() > MAX_INPUT_BYTES {
        return Err(HtmlError::InputTooLarge);
    }
    let mut out: Vec<ElementData> = Vec::new();
    let sel = match parse_selector(selector) {
        Some(s) => s,
        None => return Ok(out),
    };
    let doc = parse_document(html);
    let mut it = select(&doc, &sel);
    let ghost ms = document_matches(html@, selector@);
    let mut output_bytes: usize = 0;
    let mut i: usize = 0;
    assert(elements_view(out@) =~= ms.take(0));
    assert(ms.skip(0) =~= ms);
    loop
        invariant_except_break
            html.len() <= MAX_INPUT_BYTES,
            selector_parses(selector@),
            ms == document_matches(html@, selector@),
            i <= ms.len(),
            i <= MAX_MATCHES,
            pending_matches(it) == ms.skip(i as int),
            out@.len() == i,
            elements_view(out@) == ms.take(i as int),
            output_bytes == capped(total_bytes(ms, i as nat)),
            total_bytes(ms, i as nat) <= MAX_OUTPUT_BYTES,
            query_scan(ms, 0, 0) == query_scan(ms, i as nat, total_bytes(ms, i as nat)),
        ensures
            query_scan(ms, 0, 0) is Ok,
            elements_view(out@) == ms,
        decreases ms.len() - i,
    {
        let ghost before = out@;
        match next_match(&mut it) {
            None => {
                assert(ms.take(i as int) =~= ms);
                break;
            },
            Some(el) => {
                assert(el.view_of() == ms[i as int]);
                assert(ms.skip(i as int).drop_first() =~= ms.skip(i + 1));
                if i >= MAX_MATCHES {
                    return Err(HtmlError::TooManyMatches);
                }
                let size = element_size(&el);
                proof {
                    lemma_total_bytes_step(ms, i as nat);
                    lemma_capped_add(total_bytes(ms, i as nat), element_bytes(ms[i as int]));
                }
                output_bytes = sat_add(output_bytes, size);
                if output_bytes > MAX_OUTPUT_BYTES {
                    return Err(HtmlError::OutputTooLarge);
                }
                let ghost ev = el.view_of();
                out.push(el);
                assert(out@[i as int].view_of() == ev);
                assert forall|k: int| 0 <= k < i implies out@[k] == before[k] by {}
                assert(elements_view(out@) =~= ms.take(i + 1));
                i += 1;
            },
        }
    }
    Ok(out)
}

/// Copies out the first element of `html` that `selector` matches:
/// `None` when the selector list does not parse or nothing matches.
pub fn query_one(html: &str, selector: &str) -> (r: Result<Option<ElementData>, HtmlError>)
    ensures
        html.len() > MAX_INPUT_BYTES ==> (r matches Err(e) && e == HtmlError::InputTooLarge),
        html.len() <= MAX_INPUT_BYTES && !selector_parses(selector@) ==> r matches Ok(None),
        html.len() <= MAX_INPUT_BYTES && selector_parses(selector@) ==> {
            let ms = document_matches(html@, selector@);
            if ms.len() == 0 {
                r matches Ok(None)
            } else if element_bytes(ms[0]) > MAX_OUTPUT_BYTES {
                (r matches Err(e) && e == HtmlError::OutputTooLarge)
            } else {
                (r matches Ok(Some(el)) && el.view_of() == ms[0])
            }
        },
{
    if html.len() > MAX_INPUT_BYTES {
        return Err(HtmlError::InputTooLarge);
    }
    let sel = match parse_selector(selector) {
        Some(s) => s,
        None => return Ok(None),
    };
    let doc = parse_document(html);
    let mut it = select(&doc, &sel);
    match next_match(&mut it) {
        Some(el) => {
            proof {
                reveal(element_bytes);
                lemma_attrs_bytes_nonneg(el.view_of().attrs, el.view_of().attrs.len());
            }
            if element_size(&el) > MAX_OUTPUT_BYTES {
                return Err(HtmlError::OutputTooLarge);
            }
            Ok(Some(el))
        },
        None => Ok(None),
    }
}

/// The text of a whole document.
pub fn text(html: &str) -> (r: Result<String, HtmlError>)
    ensures
        html.len() > MAX_INPUT_BYTES ==> (r matches Err(e) && e == HtmlError::InputTooLarge),
        html.len() <= MAX_INPUT_BYTES ==> (r matches Ok(t) && t@ == document_text(html@)),
{
    if html.len() > MAX_INPUT_BYTES {
        return Err(HtmlError::InputTooLarge);
    }
    let doc = parse_document(html);
    Ok(root_text(&doc))
}

} // verus!
