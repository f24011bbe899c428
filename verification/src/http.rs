//! Decisions of the HTTP client: capped reading of response bodies, request
//! options given as script values, the merging of a request's own `Cookie`
//! header with the session's cookies, and cookie access through a client.

use vstd::prelude::*;
use vstd::string::StringSliceAdditionalSpecFns;
use vstd::utf8::{decode_utf8, encode_utf8, valid_utf8};
use crate::cookies::{cookie_lookup, opt_chars, insert_outcome, header_value_bytes, header_value_byte_ok, header_byte_visible_ascii, header_value_from_str, header_value_text, merge_cookie_header, merged_cookie_header, SessionCookieStore};
use crate::json::{ScriptValue, ScriptView};
use crate::text::{chars_to_string, i64_text, int_text, str_to_chars, utf8_to_string};
use crate::url::{parse_url, parsed_url};
use crate::pairs::{pairs_insert, string_pairs_insert, string_pairs_view};

verus! {

/// The largest response body read as text or JSON, in bytes.
pub const MAX_TEXT_BYTES: usize = 16777216;

/// The largest response body read as bytes.
pub const MAX_BYTES: usize = 33554432;

/// Why an HTTP operation was refused.
#[derive(Debug)]
pub enum HttpError {
    /// The response body exceeds the limit.
    BodyTooLarge,
    /// The requested protocol version is not `HTTP/1.1` or `HTTP/2`.
    UnsupportedVersion,
    /// A multipart value is not a string, number or boolean.
    NonScalarMultipartValue,
    /// A multipart string value is not UTF-8.
    InvalidUtf8,
    /// The URL does not parse.
    InvalidUrl(::url::ParseError),
    /// The client has no cookie store.
    NoCookieStore,
    /// The cookie could not be stored.
    Cookie(cookie_store::CookieError),
    /// The text is not a valid header value.
    InvalidHeaderValue,
}

/// The body after appending `chunk` to `buf` under the limit `cap`, or
/// `None` when the chunk would take the body past the limit.
pub open spec fn append_step(buf: Seq<u8>, chunk: Seq<u8>, cap: nat) -> Option<Seq<u8>> {
    if chunk.len() > cap - buf.len() {
        None
    } else {
        Some(buf + chunk)
    }
}

/// Appends a chunk of a response body unless that would take the body past
/// `cap` bytes; the body is then left as it was.
pub fn append_capped(buf: &mut Vec<u8>, chunk: &[u8], cap: usize) -> (r: Result<(), HttpError>)
    requires
        old(buf)@.len() <= cap,
    ensures
        match append_step(old(buf)@, chunk@, cap as nat) {
            Some(b) => r is Ok && final(buf)@ == b,
            None => (r matches Err(e) && e is BodyTooLarge) && final(buf)@ == old(buf)@,
        },
        final(buf)@.len() <= cap,
{
    if chunk.len() > cap - buf.len() {
        return Err(HttpError::BodyTooLarge);
    }
    let mut i: usize = 0;
    let ghost start = buf@;
    while i < chunk.len()
        invariant
            i <= chunk@.len(),
            buf@ == start + chunk@.subrange(0, i as int),
            start.len() + chunk@.len() <= cap,
        decreases chunk@.len() - i,
    {
        buf.push(chunk[i]);
        i += 1;
        assert(buf@ =~= start + chunk@.subrange(0, i as int));
    }
    assert(chunk@.subrange(0, chunk@.len() as int) =~= chunk@);
    Ok(())
}

/// Reading a body chunk by chunk: the outcome after the first `n` chunks.
pub open spec fn read_chunks(chunks: Seq<Seq<u8>>, n: nat, cap: nat) -> Option<Seq<u8>>
    decreases n,
{
    if n == 0 || n > chunks.len() {
        if n == 0 { Some(Seq::empty()) } else { None }
    } else {
        match read_chunks(chunks, (n - 1) as nat, cap) {
            Some(b) => append_step(b, chunks[n - 1], cap),
            None => None,
        }
    }
}

/// All the chunks, concatenated.
pub open spec fn concat_chunks(chunks: Seq<Seq<u8>>, n: nat) -> Seq<u8>
    decreases n,
{
    if n == 0 || n > chunks.len() {
        Seq::empty()
    } else {
        concat_chunks(chunks, (n - 1) as nat) + chunks[n - 1]
    }
}

/// Law: reading a body chunk by chunk under a limit succeeds exactly when
/// the whole body fits the limit, and then gives the whole body.
pub proof fn lemma_read_chunks_whole_body(chunks: Seq<Seq<u8>>, n: nat, cap: nat)
    requires
        n <= chunks.len(),
    ensures
        read_chunks(chunks, n, cap) is Some <==> concat_chunks(chunks, n).len() <= cap,
        read_chunks(chunks, n, cap) matches Some(b) ==> b == concat_chunks(chunks, n),
    decreases n,
{
    if n > 0 {
        lemma_read_chunks_whole_body(chunks, (n - 1) as nat, cap);
        lemma_concat_len_monotone(chunks, (n - 1) as nat);
    }
}

proof fn lemma_concat_len_monotone(chunks: Seq<Seq<u8>>, n: nat)
    requires
        n < chunks.len(),
    ensures
        concat_chunks(chunks, n + 1).len() == concat_chunks(chunks, n).len() + chunks[n as int].len(),
{
}

/// A protocol version a request can ask for.
#[derive(Debug, Clone, Copy, PartialEq, Eq, Structural)]
pub enum HttpVersion {
    Http11,
    Http2,
}

/// The characters of `HTTP/1.1`.
pub open spec fn http11_name() -> Seq<char> {
    seq!['H', 'T', 'T', 'P', '/', '1', '.', '1']
}

/// The characters of `HTTP/2`.
pub open spec fn http2_name() -> Seq<char> {
    seq!['H', 'T', 'T', 'P', '/', '2']
}

fn chars_eq(a: &Vec<char>, b: &Vec<char>) -> (r: bool)
    ensures
        r == (a@ == b@),
{
    if a.len() != b.len() {
        return false;
    }
    let n = a.len();
    for i in 0..n
        invariant
            n == a@.len(),
            n == b@.len(),
            forall|j: int| 0 <= j < i ==> a@[j] == b@[j],
    {
        if a[i] != b[i] {
            return false;
        }
    }
    assert(a@ =~= b@);
    true
}

/// The protocol version named by `version`: `HTTP/1.1` or `HTTP/2`.
pub fn parse_http_version(version: &str) -> (r: Result<HttpVersion, HttpError>)
    ensures
        version@ == http11_name() ==> (r matches Ok(v) && v == HttpVersion::Http11),
        version@ == http2_name() ==> (r matches Ok(v) && v == HttpVersion::Http2),
        version@ != http11_name() && version@ != http2_name() ==> (r matches Err(e) && e is UnsupportedVersion),
{
    let v = str_to_chars(version);
    let mut h11: Vec<char> = Vec::new();
    h11.push('H');
    h11.push('T');
    h11.push('T');
    h11.push('P');
    h11.push('/');
    h11.push('1');
    h11.push('.');
    h11.push('1');
    assert(h11@ =~= http11_name());
    let mut h2: Vec<char> = Vec::new();
    h2.push('H');
    h2.push('T');
    h2.push('T');
    h2.push('P');
    h2.push('/');
    h2.push('2');
    assert(h2@ =~= http2_name());
    if chars_eq(&v, &h11) {
        Ok(HttpVersion::Http11)
    } else if chars_eq(&v, &h2) {
        Ok(HttpVersion::Http2)
    } else {
        Err(HttpError::UnsupportedVersion)
    }
}

/// The characters of `true`.
pub open spec fn true_text() -> Seq<char> {
    seq!['t', 'r', 'u', 'e']
}

/// The characters of `false`.
pub open spec fn false_text() -> Seq<char> {
    seq!['f', 'a', 'l', 's', 'e']
}

/// The text a scalar script value gives as a multipart field, or `None`
/// for a value that is not a UTF-8 string, a number or a boolean.
pub open spec fn multipart_field_text(v: ScriptView) -> Option<Seq<char>> {
    match v {
        ScriptView::String(b) => if valid_utf8(b) {
            Some(decode_utf8(b))
        } else {
            None
        },
        ScriptView::Integer(i) => Some(int_text(i as int)),
        ScriptView::Number(f) => Some(f.text),
        ScriptView::Boolean(b) => Some(if b { true_text() } else { false_text() }),
        _ => None,
    }
}

/// The error that a value without multipart text gives: `InvalidUtf8` for a
/// string (which is then not UTF-8), `NonScalarMultipartValue` otherwise.
pub open spec fn multipart_error_for(e: HttpError, v: ScriptView) -> bool {
    if v is String {
        e is InvalidUtf8
    } else {
        e is NonScalarMultipartValue
    }
}

/// The text of a multipart field value: strings (which must be UTF-8),
/// numbers and booleans in their text form; other values are refused.
pub fn multipart_text(value: &ScriptValue) -> (r: Result<String, HttpError>)
    ensures
        match multipart_field_text(value.view_of()) {
            Some(t) => (r matches Ok(s) && s@ == t),
            None => r is Err,
        },
        r matches Err(e) ==> multipart_error_for(e, value.view_of()),
{
    match value {
        ScriptValue::String(bytes) => match utf8_to_string(bytes) {
            Some(s) => Ok(s),
            None => Err(HttpError::InvalidUtf8),
        },
        ScriptValue::Integer(i) => Ok(i64_text(*i)),
        ScriptValue::Number(f) => Ok(f.text.clone()),
        ScriptValue::Boolean(b) => {
            let mut c: Vec<char> = Vec::new();
            if *b {
                c.push('t');
                c.push('r');
                c.push('u');
                c.push('e');
                assert(c@ =~= true_text());
            } else {
                c.push('f');
                c.push('a');
                c.push('l');
                c.push('s');
                c.push('e');
                assert(c@ =~= false_text());
            }
            Ok(chars_to_string(&c))
        },
        _ => Err(HttpError::NonScalarMultipartValue),
    }
}

#[verifier::external_type_specification]
#[verifier::external_body]
pub struct ExForm(reqwest::multipart::Form);

/// The text fields of a multipart form, in the order they were added.
pub uninterp spec fn form_text_fields(form: reqwest::multipart::Form) -> Seq<(Seq<char>, Seq<char>)>;

/// A new multipart form.
///
/// Trusted: calls `reqwest::multipart::Form::new`, which starts with no
/// fields.
#[verifier::external_body]
fn form_new() -> (f: reqwest::multipart::Form)
    ensures
        form_text_fields(f) == Seq::<(Seq<char>, Seq<char>)>::empty(),
{
    reqwest::multipart::Form::new()
}

/// The form with a text field added.
///
/// Trusted: calls `Form::text`, which adds a text part with the given name
/// and value after the existing parts.
#[verifier::external_body]
fn form_text(form: reqwest::multipart::Form, name: String, value: String) -> (f: reqwest::multipart::Form)
    ensures
        form_text_fields(f) == form_text_fields(form).push((name@, value@)),
{
    form.text(name, value)
}

/// The multipart text fields for the first `n` fields, or `None` when a
/// value is not a scalar.
pub open spec fn multipart_fields(fields: Seq<(Seq<char>, ScriptView)>, n: nat) -> Option<Seq<(Seq<char>, Seq<char>)>>
    decreases n,
{
    if n == 0 || n > fields.len() {
        if n == 0 { Some(Seq::empty()) } else { None }
    } else {
        match multipart_fields(fields, (n - 1) as nat) {
            Some(prev) => match multipart_field_text(fields[n - 1].1) {
                Some(t) => Some(prev.push((fields[n - 1].0, t))),
                None => None,
            },
            None => None,
        }
    }
}

/// The mathematical form of named script values.
pub open spec fn named_values_view(fields: Seq<(String, ScriptValue)>) -> Seq<(Seq<char>, ScriptView)> {
    Seq::new(fields.len(), |i: int| (fields[i].0@, fields[i].1.view_of()))
}

/// Law: a multipart form lists the fields in order, each under its own
/// name with its value's text: when every value has multipart text the
/// form is built, and part `i` is named `fields[i].0` and holds the text of
/// `fields[i].1`.
pub proof fn lemma_multipart_fields_in_order(fields: Seq<(Seq<char>, ScriptView)>, n: nat)
    requires
        n <= fields.len(),
    ensures
        multipart_fields(fields, n) matches Some(out) ==> out.len() == n && forall|i: int|
            0 <= i < n ==> (#[trigger] out[i]).0 == fields[i].0 && Some(out[i].1) == multipart_field_text(fields[i].1),
        (forall|i: int| 0 <= i < n ==> (#[trigger] multipart_field_text(fields[i].1)) is Some) ==> multipart_fields(fields, n) is Some,
    decreases n,
{
    if n > 0 {
        lemma_multipart_fields_in_order(fields, (n - 1) as nat);
        if let Some(out) = multipart_fields(fields, n) {
            let prev = multipart_fields(fields, (n - 1) as nat)->0;
            assert forall|i: int| 0 <= i < n implies (#[trigger] out[i]).0 == fields[i].0 && Some(out[i].1) == multipart_field_text(fields[i].1) by {
                if i < n - 1 {
                    assert(out[i] == prev[i]);
                }
            }
        }
        if forall|i: int| 0 <= i < n ==> (#[trigger] multipart_field_text(fields[i].1)) is Some {
            assert(multipart_field_text(fields[n - 1].1) is Some);
        }
    }
}

proof fn lemma_multipart_fields_none(fields: Seq<(Seq<char>, ScriptView)>, m: nat, n: nat)
    requires
        m <= n,
        multipart_fields(fields, m) is None,
    ensures
        multipart_fields(fields, n) is None,
    decreases n,
{
    if n > m {
        lemma_multipart_fields_none(fields, m, (n - 1) as nat);
    }
}

/// A multipart form with one text field per named script value, in order;
/// refused at the first value that is not a scalar.
pub fn multipart_form(fields: &Vec<(String, ScriptValue)>) -> (r: Result<reqwest::multipart::Form, HttpError>)
    ensures
        match multipart_fields(named_values_view(fields@), fields@.len()) {
            Some(expected) => (r matches Ok(f) && form_text_fields(f) == expected),
            None => r is Err,
        },
        r matches Ok(f) ==> form_text_fields(f).len() == fields@.len() && forall|i: int|
            0 <= i < fields@.len() ==> (#[trigger] form_text_fields(f)[i]).0 == fields@[i].0@
                && Some(form_text_fields(f)[i].1) == multipart_field_text(fields@[i].1.view_of()),
        r matches Err(e) ==> exists|i: int|
            0 <= i < fields@.len()
                && multipart_fields(named_values_view(fields@), i as nat) is Some
                && multipart_field_text(#[trigger] named_values_view(fields@)[i].1) is None
                && multipart_error_for(e, named_values_view(fields@)[i].1),
{
    let ghost fv = named_values_view(fields@);
    let mut form = form_new();
    let n = fields.len();
    for i in 0..n
        invariant
            n == fields@.len(),
            fv == named_values_view(fields@),
            multipart_fields(fv, i as nat) == Some(form_text_fields(form)),
    {
        assert(fv[i as int] == (fields@[i as int].0@, fields@[i as int].1.view_of()));
        match multipart_text(&fields[i].1) {
            Ok(text) => {
                form = form_text(form, fields[i].0.clone(), text);
            },
            Err(e) => {
                proof {
                    lemma_multipart_fields_none(fv, (i + 1) as nat, n as nat);
                    assert(multipart_field_text(fv[i as int].1) is None);
                }
                return Err(e);
            },
        }
    }
    proof {
        lemma_multipart_fields_in_order(fv, n as nat);
        assert forall|i: int| 0 <= i < fields@.len() implies (#[trigger] form_text_fields(form)[i]).0 == fields@[i].0@
            && Some(form_text_fields(form)[i].1) == multipart_field_text(fields@[i].1.view_of()) by {
            assert(fv[i] == (fields@[i].0@, fields@[i].1.view_of()));
        }
    }
    Ok(form)
}

/// The text of a header value, or the empty text when it is not visible
/// ASCII.
pub open spec fn header_text_or_empty(bytes: Seq<u8>) -> Seq<char> {
    if forall|i: int| 0 <= i < bytes.len() ==> header_byte_visible_ascii(#[trigger] bytes[i]) {
        decode_utf8(bytes)
    } else {
        Seq::empty()
    }
}

/// The request's `Cookie` header value merged with the session's stored
/// one (see `merge_cookie_header`); a value that is not visible ASCII
/// counts as empty. Refused when the merged text is not a valid header
/// value.
pub fn merge_request_cookie(stored: &reqwest::header::HeaderValue, request: &reqwest::header::HeaderValue) -> (r: Result<reqwest::header::HeaderValue, HttpError>)
    ensures
        ({
            let merged = encode_utf8(merged_cookie_header(
                header_text_or_empty(header_value_bytes(*stored)),
                header_text_or_empty(header_value_bytes(*request)),
            ));
            &&& r is Ok <==> forall|i: int| 0 <= i < merged.len() ==> header_value_byte_ok(#[trigger] merged[i])
            &&& r matches Ok(h) ==> header_value_bytes(h) == merged
            &&& r matches Err(e) ==> e is InvalidHeaderValue
        }),
{
    let stored_text = match header_value_text(stored) {
        Some(t) => t,
        None => String::new(),
    };
    let request_text = match header_value_text(request) {
        Some(t) => t,
        None => String::new(),
    };
    assert(stored_text@ == header_text_or_empty(header_value_bytes(*stored)));
    assert(request_text@ == header_text_or_empty(header_value_bytes(*request)));
    let merged = merge_cookie_header(stored_text.as_str(), request_text.as_str());
    let merged_str = merged.as_str();
    assert(merged_str.spec_bytes() == encode_utf8(merged@));
    match header_value_from_str(merged_str) {
        Some(h) => Ok(h),
        None => Err(HttpError::InvalidHeaderValue),
    }
}

/// The `Cookie` header value a request goes out with, when it changes:
/// a request that carries a `Cookie` header, sent by a client whose session
/// supplies stored cookies for the URL, has its header replaced by the merge
/// of the two (see `merge_request_cookie`); otherwise nothing is replaced
/// (`Ok(None)`).
pub fn request_cookie_update(
    request: Option<&reqwest::header::HeaderValue>,
    stored: Option<&reqwest::header::HeaderValue>,
) -> (r: Result<Option<reqwest::header::HeaderValue>, HttpError>)
    ensures
        match (request, stored) {
            (Some(q), Some(s)) => {
                let merged = encode_utf8(merged_cookie_header(
                    header_text_or_empty(header_value_bytes(*s)),
                    header_text_or_empty(header_value_bytes(*q)),
                ));
                &&& r is Ok <==> forall|i: int| 0 <= i < merged.len() ==> header_value_byte_ok(#[trigger] merged[i])
                &&& r matches Ok(h) ==> (h matches Some(v) && header_value_bytes(v) == merged)
                &&& r matches Err(e) ==> e is InvalidHeaderValue
            },
            _ => r matches Ok(h) && h is None,
        },
{
    match (request, stored) {
        (Some(q), Some(s)) => match merge_request_cookie(s, q) {
            Ok(v) => Ok(Some(v)),
            Err(e) => Err(e),
        },
        _ => Ok(None),
    }
}

/// The value of the cookie named `name` that the session store holds for
/// `url`. The URL is checked first: one that does not parse is refused
/// even when the client has no store; without a store there is no cookie.
pub fn session_cookie(store: Option<&SessionCookieStore>, url: &str, name: &str) -> (r: Result<Option<String>, HttpError>)
    ensures
        r is Err <==> parsed_url(url@) is None,
        r matches Err(e) ==> e is InvalidUrl,
        store is None ==> !(r matches Ok(Some(_))),
        match store {
            Some(s) => r matches Ok(found) ==> cookie_lookup(s@.cookies, url@, name@, opt_chars(found)),
            None => true,
        },
{
    let parsed = match parse_url(url) {
        Ok(p) => p,
        Err(e) => return Err(HttpError::InvalidUrl(e)),
    };
    match store {
        Some(s) => Ok(s.cookie(&parsed, name)),
        None => Ok(None),
    }
}

/// Stores a cookie in the session store for `url`. The URL is checked
/// first; then a client without a store refuses; then the store's own
/// refusal is passed on.
pub fn session_set_cookie(store: Option<&mut SessionCookieStore>, url: &str, cookie: &str) -> (r: Result<(), HttpError>)
    ensures
        parsed_url(url@) is None ==> (r matches Err(e) && e is InvalidUrl),
        parsed_url(url@) is Some && store is None ==> (r matches Err(e) && e is NoCookieStore),
        r is Ok ==> store is Some,
        match store {
            Some(s) => if parsed_url(url@) is None {
                (*final(s))@ == (*s)@
            } else {
                insert_outcome((*s)@, (*final(s))@, cookie@, url@, r is Ok) && (r matches Err(e) ==> e is Cookie)
            },
            None => true,
        },
{
    let parsed = match parse_url(url) {
        Ok(p) => p,
        Err(e) => return Err(HttpError::InvalidUrl(e)),
    };
    match store {
        Some(s) => match s.insert(&parsed, cookie) {
            Ok(()) => Ok(()),
            Err(e) => Err(HttpError::Cookie(e)),
        },
        None => Err(HttpError::NoCookieStore),
    }
}

#[verifier::external_type_specification]
#[verifier::external_body]
pub struct ExHeaderName(reqwest::header::HeaderName);

/// The bytes of a header name.
pub uninterp spec fn header_name_bytes(n: reqwest::header::HeaderName) -> Seq<u8>;

/// Whether a byte may appear in a header name (a non-zero entry of the http
/// crate's `HEADER_CHARS` table: RFC 7230 token characters).
pub open spec fn header_name_byte_ok(b: u8) -> bool {
    ||| b == 33
    ||| 35 <= b <= 39
    ||| b == 42
    ||| b == 43
    ||| b == 45
    ||| b == 46
    ||| 48 <= b <= 57
    ||| 65 <= b <= 90
    ||| 94 <= b <= 122
    ||| b == 124
    ||| b == 126
}

/// A byte with ASCII upper-case letters made lower-case.
pub open spec fn ascii_lower(b: u8) -> u8 {
    if 65 <= b <= 90 {
        (b + 32) as u8
    } else {
        b
    }
}

/// The bytes with ASCII upper-case letters made lower-case.
pub open spec fn lower_bytes(bytes: Seq<u8>) -> Seq<u8> {
    bytes.map_values(|b: u8| ascii_lower(b))
}

/// Whether `HeaderName::from_str` accepts text with these bytes: one to
/// 65535 bytes, each allowed in a header name.
pub open spec fn header_name_ok(bytes: Seq<u8>) -> bool {
    &&& 0 < bytes.len() <= 65535
    &&& forall|i: int| 0 <= i < bytes.len() ==> header_name_byte_ok(#[trigger] bytes[i])
}

/// A header name parsed from text.
///
/// Trusted: calls `HeaderName::from_str`, which accepts exactly the texts
/// that `header_name_ok` describes and stores them lower-cased.
#[verifier::external_body]
fn header_name_from_str(text: &str) -> (r: Option<reqwest::header::HeaderName>)
    ensures
        r is Some <==> header_name_ok(text.spec_bytes()),
        r matches Some(n) ==> header_name_bytes(n) == lower_bytes(text.spec_bytes()),
{
    <reqwest::header::HeaderName as std::str::FromStr>::from_str(text).ok()
}

/// The text of a header name.
///
/// Trusted: calls `HeaderName::as_str`, whose bytes are the name's bytes.
#[verifier::external_body]
fn header_name_text(n: &reqwest::header::HeaderName) -> (r: String)
    ensures
        encode_utf8(r@) == header_name_bytes(*n),
{
    n.as_str().to_string()
}

/// Whether a name/value pair of text makes a valid header.
pub open spec fn header_pair_ok(name: Seq<u8>, value: Seq<u8>) -> bool {
    &&& header_name_ok(name)
    &&& forall|i: int| 0 <= i < value.len() ==> header_value_byte_ok(#[trigger] value[i])
}

/// Headers parsed from name/value text pairs, in order; refused at the first
/// pair whose name or value is not valid.
pub fn parse_header_pairs(pairs: &Vec<(String, String)>) -> (r: Result<Vec<(reqwest::header::HeaderName, reqwest::header::HeaderValue)>, HttpError>)
    ensures
        r is Ok <==> forall|i: int| 0 <= i < pairs@.len() ==> header_pair_ok(#[trigger] encode_utf8(pairs@[i].0@), encode_utf8(pairs@[i].1@)),
        r matches Ok(hs) ==> hs@.len() == pairs@.len() && forall|i: int| 0 <= i < hs@.len() ==> {
            &&& header_name_bytes(#[trigger] hs@[i].0) == lower_bytes(encode_utf8(pairs@[i].0@))
            &&& header_value_bytes(hs@[i].1) == encode_utf8(pairs@[i].1@)
        },
        r matches Err(e) ==> e is InvalidHeaderValue,
{
    let mut out: Vec<(reqwest::header::HeaderName, reqwest::header::HeaderValue)> = Vec::new();
    let n = pairs.len();
    for i in 0..n
        invariant
            n == pairs@.len(),
            out@.len() == i,
            forall|j: int| 0 <= j < i ==> header_pair_ok(#[trigger] encode_utf8(pairs@[j].0@), encode_utf8(pairs@[j].1@)),
            forall|j: int| 0 <= j < i ==> header_name_bytes(#[trigger] out@[j].0) == lower_bytes(encode_utf8(pairs@[j].0@)),
            forall|j: int| 0 <= j < i ==> header_value_bytes(#[trigger] out@[j].1) == encode_utf8(pairs@[j].1@),
    {
        let name_str = pairs[i].0.as_str();
        let value_str = pairs[i].1.as_str();
        let name = match header_name_from_str(name_str) {
            Some(h) => h,
            None => {
                assert(!header_pair_ok(encode_utf8(pairs@[i as int].0@), encode_utf8(pairs@[i as int].1@)));
                return Err(HttpError::InvalidHeaderValue);
            },
        };
        let value = match header_value_from_str(value_str) {
            Some(v) => v,
            None => {
                assert(!header_pair_ok(encode_utf8(pairs@[i as int].0@), encode_utf8(pairs@[i as int].1@)));
                return Err(HttpError::InvalidHeaderValue);
            },
        };
        let ghost before = out@;
        let ghost nb = header_name_bytes(name);
        let ghost vb = header_value_bytes(value);
        assert(nb == lower_bytes(encode_utf8(pairs@[i as int].0@)));
        assert(vb == encode_utf8(pairs@[i as int].1@));
        assert(header_pair_ok(encode_utf8(pairs@[i as int].0@), encode_utf8(pairs@[i as int].1@)));
        out.push((name, value));
        assert forall|j: int| 0 <= j < i + 1 implies header_name_bytes(#[trigger] out@[j].0) == lower_bytes(encode_utf8(pairs@[j].0@)) by {
            if j < i {
                assert(out@[j] == before[j]);
            }
        }
        assert forall|j: int| 0 <= j < i + 1 implies header_value_bytes(#[trigger] out@[j].1) == encode_utf8(pairs@[j].1@) by {
            if j < i {
                assert(out@[j] == before[j]);
            }
        }
    }
    Ok(out)
}

/// The table a script sees of response headers: each header whose value is
/// visible ASCII, under its name, a later value for a name replacing an
/// earlier one.
pub open spec fn response_header_table(entries: Seq<(Seq<u8>, Seq<u8>)>, n: nat) -> Seq<(Seq<char>, Seq<char>)>
    decreases n,
{
    if n == 0 || n > entries.len() {
        Seq::empty()
    } else {
        let prev = response_header_table(entries, (n - 1) as nat);
        let value = entries[n - 1].1;
        if forall|i: int| 0 <= i < value.len() ==> header_byte_visible_ascii(#[trigger] value[i]) {
            pairs_insert(prev, decode_utf8(entries[n - 1].0), decode_utf8(value))
        } else {
            prev
        }
    }
}

/// The byte form of header entries.
pub open spec fn header_entries_bytes(hs: Seq<(reqwest::header::HeaderName, reqwest::header::HeaderValue)>) -> Seq<(Seq<u8>, Seq<u8>)> {
    Seq::new(hs.len(), |i: int| (header_name_bytes(hs[i].0), header_value_bytes(hs[i].1)))
}

/// The name/value table of response headers (see `response_header_table`).
pub fn response_headers(hs: &Vec<(reqwest::header::HeaderName, reqwest::header::HeaderValue)>) -> (r: Vec<(String, String)>)
    ensures
        string_pairs_view(r@) == response_header_table(header_entries_bytes(hs@), hs@.len()),
{
    let ghost eb = header_entries_bytes(hs@);
    let mut out: Vec<(String, String)> = Vec::new();
    assert(string_pairs_view(out@) =~= Seq::<(Seq<char>, Seq<char>)>::empty());
    let n = hs.len();
    for i in 0..n
        invariant
            n == hs@.len(),
            eb == header_entries_bytes(hs@),
            string_pairs_view(out@) == response_header_table(eb, i as nat),
    {
        assert(eb[i as int] == (header_name_bytes(hs@[i as int].0), header_value_bytes(hs@[i as int].1)));
        match header_value_text(&hs[i].1) {
            Some(value) => {
                let name = header_name_text(&hs[i].0);
                proof {
                    vstd::utf8::encode_utf8_decode_utf8(name@);
                }
                string_pairs_insert(&mut out, name, value);
            },
            None => {},
        }
    }
    out
}

} // verus!
