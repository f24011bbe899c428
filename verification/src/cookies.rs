//! HTTP cookies: merging of `Cookie` request headers and a session cookie
//! store that counts its revisions.

use vstd::prelude::*;
use vstd::multiset::Multiset;
use vstd::string::StringSliceAdditionalSpecFns;
use crate::url::{parsed_url, ParsedUrl};
use crate::text::{chars_to_string, copy_range, find_char, join, next_index, str_to_chars, trim, trim_chars};
use vstd::utf8::{decode_utf8, encode_utf8};
use crate::pairs::{pair_index, lemma_pair_index_facts, distinct_names, lemma_pairs_insert_distinct, lemma_pairs_insert_lookup, pair_value, pairs_insert, string_pairs_insert, string_pairs_view};

verus! {

/// The `name=value` pair of one `;`-separated piece of a cookie header:
/// the piece is trimmed, split at its first `=`, and both halves are
/// trimmed. A piece without `=` gives nothing.
pub open spec fn cookie_pair(piece: Seq<char>) -> Option<(Seq<char>, Seq<char>)> {
    let t = trim(piece);
    match next_index(t, '=', 0) {
        Some(i) => Some((trim(t.subrange(0, i)), trim(t.subrange(i + 1, t.len() as int)))),
        None => None,
    }
}

/// Inserts, in order, the pairs of the `;`-separated pieces of `s` that
/// start at position `start` or later.
pub open spec fn merge_pieces(pairs: Seq<(Seq<char>, Seq<char>)>, s: Seq<char>, start: int) -> Seq<(Seq<char>, Seq<char>)>
    decreases s.len() - start,
{
    if start < 0 || start > s.len() {
        pairs
    } else {
        let end = match next_index(s, ';', start) {
            Some(i) => i,
            None => s.len() as int,
        };
        let next = match cookie_pair(s.subrange(start, end)) {
            Some(kv) => pairs_insert(pairs, kv.0, kv.1),
            None => pairs,
        };
        if start <= end && end < s.len() {
            merge_pieces(next, s, end + 1)
        } else {
            next
        }
    }
}

/// The cookies of one header, as name/value pairs (a later piece with the
/// same name replaces the value of an earlier one).
pub open spec fn header_cookies(s: Seq<char>) -> Seq<(Seq<char>, Seq<char>)> {
    merge_pieces(Seq::empty(), s, 0)
}

/// The cookies of a stored header merged with those of a request header:
/// the stored ones first, then the request's, which override on equal names.
pub open spec fn merged_cookie_pairs(stored: Seq<char>, req: Seq<char>) -> Seq<(Seq<char>, Seq<char>)> {
    merge_pieces(merge_pieces(Seq::empty(), stored, 0), req, 0)
}

/// The rendering of name/value pairs as a `Cookie` header value:
/// `name=value` items joined by `"; "`.
pub open spec fn render_cookie_pairs(pairs: Seq<(Seq<char>, Seq<char>)>) -> Seq<char> {
    join(Seq::new(pairs.len(), |i: int| pairs[i].0 + seq!['='] + pairs[i].1), seq![';', ' '])
}

/// The merged `Cookie` header value.
pub open spec fn merged_cookie_header(stored: Seq<char>, req: Seq<char>) -> Seq<char> {
    render_cookie_pairs(merged_cookie_pairs(stored, req))
}

fn split_cookie_pair(piece: &Vec<char>) -> (r: Option<(String, String)>)
    ensures
        match r {
            Some(kv) => cookie_pair(piece@) == Some((kv.0@, kv.1@)),
            None => cookie_pair(piece@) is None,
        },
{
    let t = trim_chars(piece);
    let tl = t.len();
    match find_char(&t, '=', 0) {
        Some(i) => {
            let key = trim_chars(&copy_range(&t, 0, i));
            let value = trim_chars(&copy_range(&t, i + 1, tl));
            Some((chars_to_string(&key), chars_to_string(&value)))
        },
        None => None,
    }
}

fn add_cookie_pieces(pairs: &mut Vec<(String, String)>, s: &Vec<char>)
    ensures
        string_pairs_view(final(pairs)@) == merge_pieces(string_pairs_view(old(pairs)@), s@, 0),
{
    let ghost target = merge_pieces(string_pairs_view(pairs@), s@, 0);
    let n = s.len();
    let mut start: usize = 0;
    loop
        invariant_except_break
            n == s@.len(),
            start <= n,
            target == merge_pieces(string_pairs_view(pairs@), s@, start as int),
        ensures
            string_pairs_view(pairs@) == target,
        decreases n - start,
    {
        let end = match find_char(s, ';', start) {
            Some(i) => i,
            None => n,
        };
        let piece = copy_range(s, start, end);
        match split_cookie_pair(&piece) {
            Some(kv) => string_pairs_insert(pairs, kv.0, kv.1),
            None => {},
        }
        if end < n {
            start = end + 1;
        } else {
            break;
        }
    }
}

/// Renders name/value pairs as a `Cookie` header value: `name=value` items
/// joined by `"; "`.
pub fn render_pairs(pairs: &Vec<(String, String)>) -> (r: String)
    ensures
        r@ == render_cookie_pairs(string_pairs_view(pairs@)),
{
    let ghost pv = string_pairs_view(pairs@);
    let ghost parts = Seq::new(pv.len(), |i: int| pv[i].0 + seq!['='] + pv[i].1);
    let n = pairs.len();
    let mut out: Vec<char> = Vec::new();
    for i in 0..n
        invariant
            n == pairs@.len(),
            pv == string_pairs_view(pairs@),
            parts == Seq::new(pv.len(), |i: int| pv[i].0 + seq!['='] + pv[i].1),
            out@ == join(parts.take(i as int), seq![';', ' ']),
    {
        let ghost before = out@;
        if i > 0 {
            out.push(';');
            out.push(' ');
        }
        let mut key = str_to_chars(pairs[i].0.as_str());
        let mut value = str_to_chars(pairs[i].1.as_str());
        out.append(&mut key);
        out.push('=');
        out.append(&mut value);
        assert(parts.take(i + 1).drop_last() =~= parts.take(i as int));
        assert(parts[i as int] == pairs@[i as int].0@ + seq!['='] + pairs@[i as int].1@);
        if i > 0 {
            assert(out@ =~= before + seq![';', ' '] + parts[i as int]);
        } else {
            assert(out@ =~= parts[i as int]);
        }
    }
    assert(parts.take(n as int) =~= parts);
    chars_to_string(&out)
}

proof fn lemma_merge_pieces_lookup(m: Seq<(Seq<char>, Seq<char>)>, s: Seq<char>, start: int, key: Seq<char>)
    requires
        0 <= start,
    ensures
        pair_value(merge_pieces(m, s, start), key) == match pair_value(merge_pieces(Seq::empty(), s, start), key) {
            Some(v) => Some(v),
            None => pair_value(m, key),
        },
    decreases s.len() - start,
{
    let empty = Seq::<(Seq<char>, Seq<char>)>::empty();
    if start <= s.len() {
        let end = match next_index(s, ';', start) {
            Some(i) => i,
            None => s.len() as int,
        };
        match cookie_pair(s.subrange(start, end)) {
            Some(kv) => {
                lemma_pairs_insert_lookup(m, kv.0, kv.1, key);
                lemma_pairs_insert_lookup(empty, kv.0, kv.1, key);
                if start <= end && end < s.len() {
                    lemma_merge_pieces_lookup(pairs_insert(m, kv.0, kv.1), s, end + 1, key);
                    lemma_merge_pieces_lookup(pairs_insert(empty, kv.0, kv.1), s, end + 1, key);
                }
            },
            None => {
                if start <= end && end < s.len() {
                    lemma_merge_pieces_lookup(m, s, end + 1, key);
                }
            },
        }
    }
}

/// Law: in the merged cookie header, a name that the request's header sets
/// has the request's value, and every other name has the stored header's
/// value (or is absent when neither sets it).
pub proof fn lemma_request_cookies_override(stored: Seq<char>, req: Seq<char>, name: Seq<char>)
    ensures
        pair_value(merged_cookie_pairs(stored, req), name) == match pair_value(header_cookies(req), name) {
            Some(v) => Some(v),
            None => pair_value(header_cookies(stored), name),
        },
{
    lemma_merge_pieces_lookup(header_cookies(stored), req, 0, name);
}

proof fn lemma_merge_pieces_distinct(m: Seq<(Seq<char>, Seq<char>)>, s: Seq<char>, start: int)
    requires
        distinct_names(m),
    ensures
        distinct_names(merge_pieces(m, s, start)),
    decreases s.len() - start,
{
    if 0 <= start <= s.len() {
        let end = match next_index(s, ';', start) {
            Some(i) => i,
            None => s.len() as int,
        };
        let next = match cookie_pair(s.subrange(start, end)) {
            Some(kv) => {
                lemma_pairs_insert_distinct(m, kv.0, kv.1);
                pairs_insert(m, kv.0, kv.1)
            },
            None => m,
        };
        if start <= end && end < s.len() {
            lemma_merge_pieces_distinct(next, s, end + 1);
        }
    }
}

/// Law: the merged cookie header names each cookie once.
pub proof fn lemma_merged_names_distinct(stored: Seq<char>, req: Seq<char>)
    ensures
        distinct_names(merged_cookie_pairs(stored, req)),
{
    lemma_merge_pieces_distinct(Seq::empty(), stored, 0);
    lemma_merge_pieces_distinct(header_cookies(stored), req, 0);
}

/// Merges the cookies of a stored `Cookie` header value with those of a
/// request's own `Cookie` header value: each `;`-separated `name=value`
/// piece is trimmed; pieces without `=` are ignored; a name seen again takes
/// the later value, so the request's cookies win over the stored ones. The
/// result lists each name once, in order of first appearance.
pub fn merge_cookie_header(stored_cookie: &str, req_cookie: &str) -> (r: String)
    ensures
        r@ == merged_cookie_header(stored_cookie@, req_cookie@),
{
    let mut pairs: Vec<(String, String)> = Vec::new();
    assert(string_pairs_view(pairs@) =~= Seq::<(Seq<char>, Seq<char>)>::empty());
    add_cookie_pieces(&mut pairs, &str_to_chars(stored_cookie));
    add_cookie_pieces(&mut pairs, &str_to_chars(req_cookie));
    render_pairs(&pairs)
}

#[verifier::external_type_specification]
#[verifier::external_body]
pub struct ExCookieStore(cookie_store::CookieStore);

#[verifier::external_type_specification]
#[verifier::external_body]
pub struct ExCookieError(cookie_store::CookieError);

#[verifier::external_type_specification]
#[verifier::external_body]
pub struct ExHeaderValue(reqwest::header::HeaderValue);

/// A cookie as a jar holds it, without its expiry time:
/// `((name, value), (domain, host_only, path), (secure, http_only, session))`.
/// `domain` is the host the cookie is bound to (`host_only`) or the domain
/// whose subdomains it also serves; `session` says the cookie never expires
/// (it came without `Max-Age` and `Expires`).
pub type CookieEntry = ((Seq<char>, Seq<char>), (Seq<char>, bool, Seq<char>), (bool, bool, bool));

/// The key under which a jar stores a cookie: its domain, path and name.
pub open spec fn entry_key(e: CookieEntry) -> (Seq<char>, Seq<char>, Seq<char>) {
    (e.1.0, e.1.2, e.0.0)
}

/// Whether a cookie never expires.
pub open spec fn entry_session(e: CookieEntry) -> bool {
    e.2.2
}

/// A cookie expired in place: the same cookie, no longer a session cookie.
pub open spec fn expired_form(e: CookieEntry) -> CookieEntry {
    (e.0, e.1, (e.2.0, e.2.1, false))
}

/// Whether a collection of cookies holds at most one cookie per key, once.
pub open spec fn keys_unique(ms: Multiset<CookieEntry>) -> bool {
    &&& forall|e: CookieEntry| #[trigger] ms.count(e) <= 1
    &&& forall|e: CookieEntry, f: CookieEntry|
        #[trigger] ms.count(e) > 0 && #[trigger] ms.count(f) > 0 && entry_key(e) == entry_key(f) ==> e == f
}

/// Whether `e` is the only cookie with its key in `ms`.
pub open spec fn listed_once(ms: Multiset<CookieEntry>, e: CookieEntry) -> bool {
    forall|f: CookieEntry| #[trigger] ms.count(f) > 0 && entry_key(f) == entry_key(e) ==> f == e
}

/// The cookies that a cookie jar holds, expired ones included.
pub uninterp spec fn jar_cookies(jar: cookie_store::CookieStore) -> Multiset<CookieEntry>;

/// Whether `cookie_store` sends a cookie with a request to the URL parsed
/// from `url`, expiry aside: its domain and path match, and a `Secure` or
/// `HttpOnly` cookie goes only to a secure or HTTP URL.
pub uninterp spec fn cookie_matches(e: CookieEntry, url: Seq<char>) -> bool;

/// The cookie that `cookie_store::Cookie::parse` makes of a `Set-Cookie`
/// text received from the URL parsed from `url` (its expiry time aside), or
/// `None` when it refuses it (no `name=value`, empty name, `HttpOnly` from
/// a non-HTTP URL, a `Domain` the URL's host does not match).
pub uninterp spec fn set_cookie_entry(text: Seq<char>, url: Seq<char>) -> Option<CookieEntry>;

/// Whether the URL parsed from `url` has a scheme that starts with `http`.
pub open spec fn url_is_http(url: Seq<char>) -> bool {
    parsed_url(url) matches Some(p) && p.scheme.len() >= 4 && p.scheme.subrange(0, 4) == seq!['h', 't', 't', 'p']
}

/// The bytes of a header value.
pub uninterp spec fn header_value_bytes(v: reqwest::header::HeaderValue) -> Seq<u8>;

/// Whether `HeaderValue::from_str` accepts a byte (`is_valid` in the http
/// crate): visible characters, space, tab and bytes from 0x80 up.
pub open spec fn header_value_byte_ok(b: u8) -> bool {
    (b >= 32 && b != 127) || b == 9
}

/// Whether `HeaderValue::to_str` accepts a byte (`is_visible_ascii` in the
/// http crate): printable ASCII, space and tab.
pub open spec fn header_byte_visible_ascii(b: u8) -> bool {
    (b >= 32 && b < 127) || b == 9
}

/// A new, empty cookie jar.
///
/// Trusted: calls `cookie_store::CookieStore::default`, whose maps start
/// empty; the contract claims the jar holds no cookie.
#[verifier::external_body]
fn jar_new() -> (jar: cookie_store::CookieStore)
    ensures
        jar_cookies(jar).len() == 0,
{
    cookie_store::CookieStore::default()
}

/// Whether the jar holds no cookie.
///
/// Trusted: calls `CookieStore::iter_any`, which visits every stored cookie,
/// expired ones included; the contract claims the answer is whether the jar
/// holds none.
#[verifier::external_body]
fn jar_is_empty(jar: &cookie_store::CookieStore) -> (r: bool)
    ensures
        r == (jar_cookies(*jar).len() == 0),
{
    jar.iter_any().next().is_none()
}

/// Removes every cookie.
///
/// Trusted: calls `CookieStore::clear`, which clears the jar's map; the
/// contract claims the jar is then empty.
#[verifier::external_body]
fn jar_clear(jar: &mut cookie_store::CookieStore)
    ensures
        jar_cookies(*final(jar)).len() == 0,
{
    jar.clear()
}

/// The name and value that `cookie::Cookie::parse` reads from a
/// `Set-Cookie` text: the text before its first `;`, split at its first
/// `=`, both halves trimmed; `None` when there is no `=` or the name is
/// empty.
pub open spec fn set_cookie_pair(text: Seq<char>) -> Option<(Seq<char>, Seq<char>)> {
    let first = match next_index(text, ';', 0) {
        Some(i) => text.subrange(0, i),
        None => text,
    };
    match next_index(first, '=', 0) {
        Some(i) => {
            let name = trim(first.subrange(0, i));
            if name.len() == 0 {
                None
            } else {
                Some((name, trim(first.subrange(i + 1, first.len() as int))))
            }
        },
        None => None,
    }
}

/// How storing the cookie `e` may change the cookies of a jar: cookies
/// under other keys stay; under `e`'s key the jar then holds `e` or, when
/// `e` is not a session cookie (it may have arrived expired), the earlier
/// cookie expired in place; a session cookie is always held afterwards.
pub open spec fn stores_entry(before: Multiset<CookieEntry>, after: Multiset<CookieEntry>, e: CookieEntry) -> bool {
    &&& forall|f: CookieEntry| entry_key(f) != entry_key(e) ==> #[trigger] after.count(f) == before.count(f)
    &&& forall|f: CookieEntry|
        entry_key(f) == entry_key(e) && #[trigger] after.count(f) > 0 ==> f == e || (!entry_session(e)
            && !entry_session(f) && exists|o: CookieEntry| before.count(o) > 0 && #[trigger] expired_form(o) == f)
    &&& entry_session(e) ==> after.count(e) > 0
}

/// Parses a `Set-Cookie` text received from `url` and stores the cookie.
///
/// Trusted: calls `CookieStore::parse` with the parsed URL. Its source
/// makes the cookie with `Cookie::parse` (the cookie crate's parser, not
/// decoding, whose name and value are `set_cookie_pair` of the text; the
/// scope comes from the text and the URL: `set_cookie_entry`) and returns
/// an error before touching the jar when that fails. It then inserts the
/// cookie under its domain, path and name, replacing an earlier one; or,
/// when the new cookie has already expired, expires the earlier one in
/// place (an error when there is none); or refuses it when the earlier one
/// is `HttpOnly` and the URL's scheme is not HTTP. A session cookie never
/// counts as expired, so one received from an HTTP URL is always stored.
/// Which other outcome happens depends on the current time and is left
/// unsaid.
#[verifier::external_body]
fn jar_parse(jar: &mut cookie_store::CookieStore, cookie: &str, url: &ParsedUrl) -> (r: Result<(), cookie_store::CookieError>)
    ensures
        r is Err ==> jar_cookies(*final(jar)) == jar_cookies(*old(jar)),
        r is Ok ==> (set_cookie_entry(cookie@, url.source_view()) matches Some(e)
            && set_cookie_pair(cookie@) == Some(e.0)
            && stores_entry(jar_cookies(*old(jar)), jar_cookies(*final(jar)), e)),
        (set_cookie_entry(cookie@, url.source_view()) matches Some(e) && entry_session(e) && url_is_http(url.source_view()))
            ==> r is Ok,
{
    jar.parse(cookie, url.url()).map(|_| ())
}

/// The (name, value) pairs of the unexpired cookies that `url` should carry.
///
/// Trusted: calls `CookieStore::get_request_values` with the parsed URL,
/// which gives the name and value of each stored cookie that matches the URL
/// and has not expired. The contract claims every pair comes from a stored
/// cookie that matches the URL, and every stored session cookie (which never
/// expires) that matches the URL gives a pair. Which other cookies have
/// expired depends on the current time, and the order on hash-map iteration;
/// both are left unsaid.
#[verifier::external_body]
fn jar_request_values(jar: &cookie_store::CookieStore, url: &ParsedUrl) -> (r: Vec<(String, String)>)
    ensures
        forall|i: int| 0 <= i < r@.len() ==> exists|e: CookieEntry|
            #[trigger] jar_cookies(*jar).count(e) > 0 && cookie_matches(e, url.source_view())
                && e.0 == (#[trigger] string_pairs_view(r@)[i]),
        forall|e: CookieEntry| #[trigger] jar_cookies(*jar).count(e) > 0 && entry_session(e)
            && cookie_matches(e, url.source_view()) ==> string_pairs_view(r@).contains(e.0),
{
    jar.get_request_values(url.url()).map(|(n, v)| (n.to_string(), v.to_string())).collect()
}

/// A copy of the jar without its expired cookies.
///
/// Trusted: calls `CookieStore::iter_unexpired` and `CookieStore::from_cookies`
/// (whose error type here is `Infallible`); the contract claims the copy's
/// cookies are among the jar's, hold every session cookie of the jar (which
/// never expires), and keep one cookie per key. Which other cookies have
/// expired depends on the current time and is left unsaid.
#[verifier::external_body]
fn jar_unexpired_copy(jar: &cookie_store::CookieStore) -> (r: cookie_store::CookieStore)
    ensures
        jar_cookies(r).subset_of(jar_cookies(*jar)),
        forall|e: CookieEntry| #[trigger] jar_cookies(*jar).count(e) > 0 && entry_session(e) ==> jar_cookies(r).count(e) > 0,
        keys_unique(jar_cookies(r)),
{
    let cookies = jar.iter_unexpired().cloned().map(Ok::<_, std::convert::Infallible>);
    match cookie_store::CookieStore::from_cookies(cookies, false) {
        Ok(copy) => copy,
        Err(never) => match never {},
    }
}

/// The cookies that a JSON text of `cookie_store` lists, expired ones
/// included.
pub uninterp spec fn json_text_cookies(text: Seq<char>) -> Multiset<CookieEntry>;

/// The JSON text of every cookie in the jar.
///
/// Trusted: calls `cookie_store::serde::json::save_incl_expired_and_nonpersistent`
/// into a byte buffer (JSON text is UTF-8); its error becomes its message.
/// The source writes every cookie of the jar, each with its `Set-Cookie`
/// text, path, domain and expiry, in the form that
/// `cookie_store::serde::json::load` reads back (the `Set-Cookie` text
/// re-parses to the same name, value and flags, and the expiry is written in
/// the RFC 3339 form that is read back), so the contract claims the text
/// loads and lists exactly the jar's cookies. An empty jar is written as an
/// empty list, which cannot fail.
#[verifier::external_body]
fn jar_save_json(jar: &cookie_store::CookieStore) -> (r: Result<String, String>)
    ensures
        r matches Ok(t) ==> jar_json_loads(t@) && json_text_cookies(t@) == jar_cookies(*jar),
        jar_cookies(*jar).len() == 0 ==> r is Ok,
{
    let mut out: Vec<u8> = Vec::new();
    match cookie_store::serde::json::save_incl_expired_and_nonpersistent(jar, &mut out) {
        Ok(()) => Ok(String::from_utf8_lossy(&out).into_owned()),
        Err(e) => Err(e.to_string()),
    }
}

/// Whether `cookie_store::serde::json::load` accepts a text: whether the
/// text is a JSON array of cookies that deserialize.
pub uninterp spec fn jar_json_loads(text: Seq<char>) -> bool;

/// A jar loaded from JSON text, skipping expired cookies.
///
/// Trusted: calls `cookie_store::serde::json::load`; its error becomes its
/// message. Its source fails only where `serde_json::from_str` fails to
/// read the text as a list of cookies (the reader over the text's bytes
/// cannot fail, and `CookieStore::from_cookies` then cannot), so the
/// contract claims that success is a function of the text alone. The jar
/// keeps, per domain, path and name, the last listed cookie that has not
/// expired; so its cookies are among those listed, and a listed session
/// cookie (which never expires) that no other listed cookie shares a key
/// with is kept. Which other cookies have expired depends on the current
/// time and is left unsaid.
#[verifier::external_body]
fn jar_load_json(text: &str) -> (r: Result<cookie_store::CookieStore, String>)
    ensures
        r is Ok <==> jar_json_loads(text@),
        r matches Ok(j) ==> jar_cookies(j).subset_of(json_text_cookies(text@)),
        r matches Ok(j) ==> keys_unique(jar_cookies(j)),
        r matches Ok(j) ==> forall|e: CookieEntry|
            #[trigger] json_text_cookies(text@).count(e) > 0 && entry_session(e) && listed_once(json_text_cookies(text@), e)
                ==> jar_cookies(j).count(e) > 0,
{
    cookie_store::serde::json::load(text.as_bytes()).map_err(|e| e.to_string())
}

/// A header value built from text.
///
/// Trusted: calls `HeaderValue::from_str`, which accepts exactly the texts
/// whose bytes all pass `header_value_byte_ok` and then holds those bytes.
#[verifier::external_body]
pub(crate) fn header_value_from_str(text: &str) -> (r: Option<reqwest::header::HeaderValue>)
    ensures
        r is Some <==> forall|i: int| 0 <= i < text.spec_bytes().len() ==> header_value_byte_ok(#[trigger] text.spec_bytes()[i]),
        r matches Some(v) ==> header_value_bytes(v) == text.spec_bytes(),
{
    reqwest::header::HeaderValue::from_str(text).ok()
}

/// The text of a header value.
///
/// Trusted: calls `HeaderValue::to_str`, which succeeds exactly when every
/// byte passes `header_byte_visible_ascii`, and then reads the same bytes as
/// text.
#[verifier::external_body]
pub(crate) fn header_value_text(v: &reqwest::header::HeaderValue) -> (r: Option<String>)
    ensures
        r is Some <==> forall|i: int| 0 <= i < header_value_bytes(*v).len() ==> header_byte_visible_ascii(#[trigger] header_value_bytes(*v)[i]),
        r matches Some(t) ==> t@ == decode_utf8(header_value_bytes(*v)) && encode_utf8(t@) == header_value_bytes(*v),
{
    v.to_str().ok().map(str::to_owned)
}

/// Whether every byte of a header value is visible ASCII, so that it reads
/// as text.
pub open spec fn header_is_visible_ascii(v: reqwest::header::HeaderValue) -> bool {
    forall|i: int| 0 <= i < header_value_bytes(v).len() ==> header_byte_visible_ascii(#[trigger] header_value_bytes(v)[i])
}

/// The cookie that a `Set-Cookie` header value received from `url` gives:
/// `set_cookie_entry` of its text when it is visible ASCII, `None`
/// otherwise.
pub open spec fn header_cookie(v: reqwest::header::HeaderValue, url: Seq<char>) -> Option<CookieEntry> {
    if header_is_visible_ascii(v) {
        set_cookie_entry(decode_utf8(header_value_bytes(v)), url)
    } else {
        None
    }
}

/// Whether the header at position `j` gives a session cookie that no later
/// header among the first `n` replaces (none gives a cookie with its key).
pub open spec fn last_session_header(headers: Seq<reqwest::header::HeaderValue>, url: Seq<char>, j: int, n: int) -> bool {
    &&& header_cookie(headers[j], url) matches Some(e) && entry_session(e)
    &&& forall|k: int| j < k < n ==> !(#[trigger] header_cookie(headers[k], url) matches Some(e2)
        && entry_key(e2) == entry_key(header_cookie(headers[j], url)->0))
}

/// How storing the cookies of the first `n` header values received from
/// `url` may change the cookies of a jar: a cookie under a key that none of
/// them gives stays; a cookie gains only under a key that one of them
/// gives, as that header's cookie or as a cookie expired in place; and when
/// the URL is HTTP, each session cookie that no later header replaces is
/// held afterwards.
pub open spec fn stores_headers(
    before: Multiset<CookieEntry>,
    after: Multiset<CookieEntry>,
    headers: Seq<reqwest::header::HeaderValue>,
    url: Seq<char>,
    n: int,
) -> bool {
    &&& forall|f: CookieEntry|
        (forall|j: int| 0 <= j < n ==> !(#[trigger] header_cookie(headers[j], url) matches Some(e) && entry_key(e) == entry_key(f)))
            ==> #[trigger] after.count(f) == before.count(f)
    &&& forall|f: CookieEntry|
        #[trigger] after.count(f) > before.count(f) ==> exists|j: int|
            0 <= j < n && (#[trigger] header_cookie(headers[j], url) matches Some(e) && entry_key(e) == entry_key(f)
                && (f == e || !entry_session(f)))
    &&& url_is_http(url) ==> forall|j: int|
        0 <= j < n && last_session_header(headers, url, j, n) ==> after.count(#[trigger] header_cookie(headers[j], url)->0) > 0
}

/// How many of the first `n` header values give a cookie.
pub open spec fn cookie_header_count(headers: Seq<reqwest::header::HeaderValue>, url: Seq<char>, n: int) -> nat
    decreases n,
{
    if n <= 0 || n > headers.len() {
        0
    } else {
        cookie_header_count(headers, url, n - 1) + if header_cookie(headers[n - 1], url) is Some { 1nat } else { 0nat }
    }
}

proof fn lemma_no_visible_header_no_cookie(headers: Seq<reqwest::header::HeaderValue>, url: Seq<char>, n: int)
    requires
        0 <= n <= headers.len(),
        forall|j: int| 0 <= j < headers.len() ==> !header_is_visible_ascii(#[trigger] headers[j]),
    ensures
        cookie_header_count(headers, url, n) == 0,
    decreases n,
{
    if n > 0 {
        assert(!header_is_visible_ascii(headers[n - 1]));
        lemma_no_visible_header_no_cookie(headers, url, n - 1);
    }
}

proof fn lemma_stores_headers_step(
    start: Multiset<CookieEntry>,
    mid: Multiset<CookieEntry>,
    end: Multiset<CookieEntry>,
    headers: Seq<reqwest::header::HeaderValue>,
    url: Seq<char>,
    i: int,
    ok: bool,
)
    requires
        0 <= i < headers.len(),
        stores_headers(start, mid, headers, url, i),
        ok ==> (header_cookie(headers[i], url) matches Some(e) && stores_entry(mid, end, e)),
        !ok ==> end == mid,
        (header_cookie(headers[i], url) matches Some(e) && entry_session(e) && url_is_http(url)) ==> ok,
    ensures
        stores_headers(start, end, headers, url, i + 1),
{
    assert forall|f: CookieEntry|
        (forall|j: int| 0 <= j < i + 1 ==> !(#[trigger] header_cookie(headers[j], url) matches Some(e) && entry_key(e) == entry_key(f)))
        implies #[trigger] end.count(f) == start.count(f) by {
        assert(!(header_cookie(headers[i], url) matches Some(e) && entry_key(e) == entry_key(f)));
        assert forall|j: int| 0 <= j < i implies !(#[trigger] header_cookie(headers[j], url) matches Some(e) && entry_key(e) == entry_key(f)) by {
            assert(!(header_cookie(headers[j], url) matches Some(e) && entry_key(e) == entry_key(f)));
        }
        assert(mid.count(f) == start.count(f));
    }
    assert forall|f: CookieEntry| #[trigger] end.count(f) > start.count(f) implies exists|j: int|
        0 <= j < i + 1 && (#[trigger] header_cookie(headers[j], url) matches Some(e) && entry_key(e) == entry_key(f)
            && (f == e || !entry_session(f))) by {
        if mid.count(f) > start.count(f) {
            let j = choose|j: int|
                0 <= j < i && (#[trigger] header_cookie(headers[j], url) matches Some(e) && entry_key(e) == entry_key(f)
                    && (f == e || !entry_session(f)));
            assert(0 <= j < i + 1);
        } else {
            assert(end.count(f) > mid.count(f));
            let e = header_cookie(headers[i], url)->0;
            assert(entry_key(f) == entry_key(e));
            assert(f == e || !entry_session(f));
        }
    }
    if url_is_http(url) {
        assert forall|j: int| 0 <= j < i + 1 && last_session_header(headers, url, j, i + 1)
            implies end.count(#[trigger] header_cookie(headers[j], url)->0) > 0 by {
            let ej = header_cookie(headers[j], url)->0;
            if j == i {
                assert(ok);
            } else {
                assert(last_session_header(headers, url, j, i)) by {
                    assert forall|k: int| j < k < i implies !(#[trigger] header_cookie(headers[k], url) matches Some(e2)
                        && entry_key(e2) == entry_key(header_cookie(headers[j], url)->0)) by {
                        assert(j < k < i + 1);
                    }
                }
                assert(mid.count(ej) > 0);
                assert(!(header_cookie(headers[i], url) matches Some(e2) && entry_key(e2) == entry_key(ej)));
            }
        }
    }
}

/// The revision that follows `r` (counting wraps around).
pub open spec fn next_revision(r: u64) -> u64 {
    if r == u64::MAX {
        0
    } else {
        (r + 1) as u64
    }
}

/// What inserting a `Set-Cookie` text received from `url` does to a store:
/// on success the revision advances, the clean revision stays, and the
/// cookies change as storing the text's cookie (`set_cookie_entry`) may
/// change them; on failure nothing changes. A session cookie received from
/// an HTTP URL is always stored, and a text that gives no cookie (such as
/// one whose `Domain` the URL's host does not match) always fails.
pub open spec fn insert_outcome(before: SessionView, after: SessionView, cookie: Seq<char>, url: Seq<char>, ok: bool) -> bool {
    &&& ok ==> after.revision == next_revision(before.revision) && after.clean_revision == before.clean_revision
        && (set_cookie_entry(cookie, url) matches Some(e) && set_cookie_pair(cookie) == Some(e.0)
            && stores_entry(before.cookies, after.cookies, e))
    &&& !ok ==> after == before
    &&& (set_cookie_entry(cookie, url) matches Some(e) && entry_session(e) && url_is_http(url)) ==> ok
}

/// What a snapshot of a store is: its text can be restored, the cookies it
/// lists are among the store's and include every session cookie of the
/// store, one per key, and it carries the store's revision.
pub open spec fn snapshot_of(store: SessionView, text: Seq<char>, revision: u64) -> bool {
    &&& revision == store.revision
    &&& jar_json_loads(text)
    &&& json_text_cookies(text).subset_of(store.cookies)
    &&& forall|e: CookieEntry| #[trigger] store.cookies.count(e) > 0 && entry_session(e) ==> json_text_cookies(text).count(e) > 0
    &&& keys_unique(json_text_cookies(text))
}

/// What restoring a store from a text does: it succeeds exactly when the
/// text loads; the store then holds cookies the text lists, including each
/// listed session cookie that no other listed cookie shares a key with, at
/// a new revision marked clean; on failure nothing changes.
pub open spec fn restore_outcome(before: SessionView, after: SessionView, text: Seq<char>, ok: bool) -> bool {
    &&& ok <==> jar_json_loads(text)
    &&& ok ==> after.cookies.subset_of(json_text_cookies(text))
    &&& ok ==> forall|e: CookieEntry|
        #[trigger] json_text_cookies(text).count(e) > 0 && entry_session(e) && listed_once(json_text_cookies(text), e)
            ==> after.cookies.count(e) > 0
    &&& ok ==> after.revision == next_revision(before.revision) && after.clean_revision == after.revision
    &&& !ok ==> after == before
}

/// Law: restoring from a snapshot's text succeeds; the restored store holds
/// only cookies that the snapshotted store held (those that have not
/// expired by then), holds every session cookie it held, and is clean.
pub proof fn lemma_snapshot_restore_round_trip(
    store: SessionView,
    text: Seq<char>,
    revision: u64,
    before: SessionView,
    after: SessionView,
    ok: bool,
)
    requires
        snapshot_of(store, text, revision),
        restore_outcome(before, after, text, ok),
    ensures
        ok,
        after.cookies.subset_of(store.cookies),
        forall|e: CookieEntry| #[trigger] store.cookies.count(e) > 0 && entry_session(e) ==> after.cookies.count(e) > 0,
        after.revision == after.clean_revision,
{
    let listed = json_text_cookies(text);
    assert forall|e: CookieEntry| #[trigger] store.cookies.count(e) > 0 && entry_session(e) implies after.cookies.count(e) > 0 by {
        assert(listed.count(e) > 0);
        assert forall|f: CookieEntry| #[trigger] listed.count(f) > 0 && entry_key(f) == entry_key(e) implies f == e by {
            assert(listed.count(e) > 0 && listed.count(f) > 0);
        }
        assert(listed_once(listed, e));
    }
}

/// What looking up the cookie `name` for `url` among a store's cookies may
/// answer: a value comes from a stored cookie of that name that matches the
/// URL; and when a stored session cookie of that name matches the URL,
/// there is an answer.
pub open spec fn cookie_lookup(cookies: Multiset<CookieEntry>, url: Seq<char>, name: Seq<char>, r: Option<Seq<char>>) -> bool {
    &&& r matches Some(v) ==> exists|e: CookieEntry|
        #[trigger] cookies.count(e) > 0 && cookie_matches(e, url) && e.0 == (name, v)
    &&& (exists|e: CookieEntry|
        #[trigger] cookies.count(e) > 0 && entry_session(e) && cookie_matches(e, url) && e.0.0 == name) ==> r is Some
}

/// Whether `r` is the `Cookie` header value for request cookies `vals`
/// that a store's cookies give for `url`: every pair of `vals` comes from a
/// stored cookie that matches the URL, every stored session cookie that
/// matches the URL gives a pair; `Some` holds the `"; "`-join of their
/// `name=value` items, when there is at least one and that text is a valid
/// header value; `None` otherwise.
pub open spec fn request_header_of(
    cookies: Multiset<CookieEntry>,
    url: Seq<char>,
    vals: Seq<(Seq<char>, Seq<char>)>,
    r: Option<reqwest::header::HeaderValue>,
) -> bool {
    let text = encode_utf8(render_cookie_pairs(vals));
    &&& forall|i: int| 0 <= i < vals.len() ==> exists|e: CookieEntry|
        #[trigger] cookies.count(e) > 0 && cookie_matches(e, url) && e.0 == #[trigger] vals[i]
    &&& forall|e: CookieEntry| #[trigger] cookies.count(e) > 0 && entry_session(e) && cookie_matches(e, url) ==> vals.contains(e.0)
    &&& r is Some <==> (vals.len() > 0 && forall|i: int| 0 <= i < text.len() ==> header_value_byte_ok(#[trigger] text[i]))
    &&& r matches Some(v) ==> header_value_bytes(v) == text
}

/// Why a cookie snapshot could not be written or read.
#[derive(Debug, Clone, PartialEq, Eq)]
pub struct CookieStoreError {
    pub message: String,
}

/// The serialized cookies of a session, with the revision they were taken at.
#[derive(Debug, Clone, PartialEq, Eq)]
pub struct SessionCookieSnapshot {
    pub value: String,
    pub revision: u64,
}

/// A session's cookie jar with a revision counter: every change to the
/// cookies advances the revision, and the revision last saved is remembered
/// as clean, so the store knows when it has changes not yet saved.
#[derive(Debug)]
pub struct SessionCookieStore {
    jar: cookie_store::CookieStore,
    revision: u64,
    clean_revision: u64,
}

/// The mathematical form of a session cookie store.
pub struct SessionView {
    pub revision: u64,
    pub clean_revision: u64,
    pub cookies: Multiset<CookieEntry>,
}

impl View for SessionCookieStore {
    type V = SessionView;

    closed spec fn view(&self) -> SessionView {
        SessionView { revision: self.revision, clean_revision: self.clean_revision, cookies: jar_cookies(self.jar) }
    }
}

impl SessionCookieStore {
    /// An empty store at revision zero, clean.
    pub fn new() -> (s: Self)
        ensures
            s@.revision == 0,
            s@.clean_revision == 0,
            s@.cookies.len() == 0,
    {
        SessionCookieStore { jar: jar_new(), revision: 0, clean_revision: 0 }
    }

    fn advance_revision(&mut self) -> (r: u64)
        ensures
            final(self).jar == old(self).jar,
            final(self).clean_revision == old(self).clean_revision,
            final(self).revision == next_revision(old(self).revision),
            r == final(self).revision,
    {
        self.revision = if self.revision == u64::MAX {
            0
        } else {
            self.revision + 1
        };
        self.revision
    }

    /// The current revision.
    pub fn revision(&self) -> (r: u64)
        ensures
            r == self@.revision,
    {
        self.revision
    }

    /// Whether the cookies changed since the revision last marked clean.
    pub fn is_dirty(&self) -> (r: bool)
        ensures
            r == (self@.revision != self@.clean_revision),
    {
        self.revision != self.clean_revision
    }

    /// Records `revision` as saved; answers whether it is the current one.
    pub fn mark_clean(&mut self, revision: u64) -> (r: bool)
        ensures
            final(self)@.clean_revision == revision,
            final(self)@.revision == old(self)@.revision,
            final(self)@.cookies == old(self)@.cookies,
            r == (old(self)@.revision == revision),
    {
        self.clean_revision = revision;
        self.revision == revision
    }

    /// The JSON text of the unexpired cookies, with the current revision.
    /// The text can be restored; the cookies it lists are among the store's
    /// and include all its session cookies. A snapshot of an empty store
    /// always succeeds.
    pub fn snapshot(&self) -> (r: Result<SessionCookieSnapshot, CookieStoreError>)
        ensures
            r matches Ok(snap) ==> snapshot_of(self@, snap.value@, snap.revision),
            self@.cookies.len() == 0 ==> r is Ok,
    {
        let revision = self.revision;
        let unexpired = jar_unexpired_copy(&self.jar);
        proof {
            broadcast use vstd::multiset::group_multiset_axioms;
            let all = jar_cookies(self.jar);
            let copy = jar_cookies(unexpired);
            vstd::multiset::lemma_multiset_empty_len(all);
            vstd::multiset::lemma_multiset_empty_len(copy);
            if all.len() == 0 && copy.len() > 0 {
                let v = choose|v: CookieEntry| 0 < copy.count(v);
                assert(all.count(v) >= copy.count(v));
                assert(all.count(v) == 0);
            }
        }
        match jar_save_json(&unexpired) {
            Ok(value) => Ok(SessionCookieSnapshot { value, revision }),
            Err(message) => Err(CookieStoreError { message }),
        }
    }

    /// Replaces the cookies with those of a snapshot; the store then has a
    /// new revision, marked clean. A snapshot that cannot be read changes
    /// nothing.
    pub fn restore(&mut self, snapshot: &str) -> (r: Result<(), CookieStoreError>)
        ensures
            restore_outcome(old(self)@, final(self)@, snapshot@, r is Ok),
    {
        match jar_load_json(snapshot) {
            Ok(jar) => {
                self.jar = jar;
                let revision = self.advance_revision();
                self.clean_revision = revision;
                Ok(())
            },
            Err(message) => Err(CookieStoreError { message }),
        }
    }

    /// The value of the first cookie named `name` among those `url` carries.
    pub fn cookie(&self, url: &ParsedUrl, name: &str) -> (r: Option<String>)
        ensures
            cookie_lookup(self@.cookies, url.source_view(), name@, opt_chars(r)),
    {
        let values = jar_request_values(&self.jar, url);
        let found = first_value_named(&values, name);
        proof {
            let pv = string_pairs_view(values@);
            lemma_pair_index_facts(pv, name@, 0);
            if let Some(j) = pair_index(pv, name@, 0) {
                assert(pv[j] == (name@, pv[j].1));
            }
            if exists|e: CookieEntry|
                #[trigger] jar_cookies(self.jar).count(e) > 0 && entry_session(e) && cookie_matches(e, url.source_view()) && e.0.0 == name@ {
                let e = choose|e: CookieEntry|
                    #[trigger] jar_cookies(self.jar).count(e) > 0 && entry_session(e) && cookie_matches(e, url.source_view()) && e.0.0 == name@;
                assert(pv.contains(e.0));
                let k = choose|k: int| 0 <= k < pv.len() && pv[k] == e.0;
                assert(pv[k].0 == name@);
            }
        }
        found
    }

    /// Parses a `Set-Cookie` text received from `url` and stores the cookie.
    /// On success the revision advances; on failure nothing changes.
    pub fn insert(&mut self, url: &ParsedUrl, cookie: &str) -> (r: Result<(), cookie_store::CookieError>)
        ensures
            insert_outcome(old(self)@, final(self)@, cookie@, url.source_view(), r is Ok),
    {
        match jar_parse(&mut self.jar, cookie, url) {
            Ok(()) => {
                self.advance_revision();
                Ok(())
            },
            Err(e) => Err(e),
        }
    }

    /// Removes every cookie. The revision advances only when there was a
    /// cookie to remove.
    pub fn clear(&mut self)
        ensures
            final(self)@.cookies.len() == 0,
            final(self)@.clean_revision == old(self)@.clean_revision,
            final(self)@.revision == if old(self)@.cookies.len() == 0 {
                old(self)@.revision
            } else {
                next_revision(old(self)@.revision)
            },
    {
        if !jar_is_empty(&self.jar) {
            jar_clear(&mut self.jar);
            self.advance_revision();
        }
    }

    /// Stores the cookies of `Set-Cookie` header values received from
    /// `url`, and answers how many the jar accepted. Values that are not
    /// visible ASCII, or that do not give a storable cookie, are skipped;
    /// the revision advances once when at least one cookie was stored.
    pub fn set_cookies(&mut self, headers: &Vec<reqwest::header::HeaderValue>, url: &ParsedUrl) -> (stored: usize)
        ensures
            final(self)@.clean_revision == old(self)@.clean_revision,
            final(self)@.revision == if stored > 0 {
                next_revision(old(self)@.revision)
            } else {
                old(self)@.revision
            },
            stored <= cookie_header_count(headers@, url.source_view(), headers@.len() as int),
            stored == 0 ==> final(self)@ == old(self)@,
            (forall|j: int| 0 <= j < headers@.len() ==> !header_is_visible_ascii(#[trigger] headers@[j]))
                ==> final(self)@ == old(self)@,
            stores_headers(old(self)@.cookies, final(self)@.cookies, headers@, url.source_view(), headers@.len() as int),
            (url_is_http(url.source_view()) && exists|j: int|
                0 <= j < headers@.len() && (#[trigger] header_cookie(headers@[j], url.source_view()) matches Some(e)
                    && entry_session(e))) ==> stored > 0,
    {
        let ghost u = url.source_view();
        let mut stored: usize = 0;
        let n = headers.len();
        for i in 0..n
            invariant
                n == headers@.len(),
                u == url.source_view(),
                self.revision == old(self).revision,
                self.clean_revision == old(self).clean_revision,
                stored <= cookie_header_count(headers@, u, i as int),
                cookie_header_count(headers@, u, i as int) <= i,
                stored == 0 ==> jar_cookies(self.jar) == jar_cookies(old(self).jar),
                stores_headers(jar_cookies(old(self).jar), jar_cookies(self.jar), headers@, u, i as int),
                (url_is_http(u) && exists|j: int|
                    0 <= j < i && (#[trigger] header_cookie(headers@[j], u) matches Some(e) && entry_session(e))) ==> stored > 0,
        {
            let ghost before = jar_cookies(self.jar);
            let mut ok = false;
            if let Some(text) = header_value_text(&headers[i]) {
                assert(header_is_visible_ascii(headers@[i as int]));
                assert(header_cookie(headers@[i as int], u) == set_cookie_entry(text@, u));
                if jar_parse(&mut self.jar, text.as_str(), url).is_ok() {
                    stored = stored + 1;
                    ok = true;
                }
            }
            proof {
                lemma_stores_headers_step(jar_cookies(old(self).jar), before, jar_cookies(self.jar), headers@, u, i as int, ok);
                if url_is_http(u) && exists|j: int|
                    0 <= j < i + 1 && (#[trigger] header_cookie(headers@[j], u) matches Some(e) && entry_session(e)) {
                    let j = choose|j: int|
                        0 <= j < i + 1 && (#[trigger] header_cookie(headers@[j], u) matches Some(e) && entry_session(e));
                    if j == i {
                        assert(ok);
                    } else {
                        assert(0 <= j < i);
                    }
                }
            }
        }
        proof {
            if forall|j: int| 0 <= j < headers@.len() ==> !header_is_visible_ascii(#[trigger] headers@[j]) {
                lemma_no_visible_header_no_cookie(headers@, u, n as int);
            }
        }
        if stored > 0 {
            self.advance_revision();
        }
        stored
    }

    /// The `Cookie` header value for a request to `url`: the cookies it
    /// carries as `name=value` items joined by `"; "`; `None` when there is
    /// none or the text is not a valid header value.
    pub fn cookies(&self, url: &ParsedUrl) -> (r: Option<reqwest::header::HeaderValue>)
        ensures
            r is Some ==> self@.cookies.len() > 0,
            exists|vals: Seq<(Seq<char>, Seq<char>)>| #[trigger] request_header_of(self@.cookies, url.source_view(), vals, r),
    {
        let values = jar_request_values(&self.jar, url);
        let r = cookie_header_value(&values);
        proof {
            let vals = string_pairs_view(values@);
            if r is Some {
                assert(vals.len() > 0);
                let e = choose|e: CookieEntry|
                    #[trigger] jar_cookies(self.jar).count(e) > 0 && cookie_matches(e, url.source_view()) && e.0 == vals[0];
                assert(jar_cookies(self.jar).count(e) > 0);
            }
            assert(request_header_of(self@.cookies, url.source_view(), vals, r));
        }
        r
    }
}

/// Law: a store that is clean becomes dirty on any change of its cookies
/// (a successful insert or restore, a clear that removed cookies, stored
/// `Set-Cookie` headers): the change moves the revision on while the clean
/// revision stays.
pub proof fn lemma_change_makes_clean_store_dirty(before: SessionView, after: SessionView)
    requires
        before.revision == before.clean_revision,
        after.revision == next_revision(before.revision),
        after.clean_revision == before.clean_revision,
    ensures
        after.revision != after.clean_revision,
{
}

/// The clean revision after a sequence of operations on a new store, where
/// each operation either sets the clean revision (`Some`: `mark_clean` with
/// its argument, or a successful `restore` with its new revision) or keeps
/// it (`None`: every other operation): the last value set, or zero.
pub open spec fn last_clean(sets: Seq<Option<u64>>) -> u64
    decreases sets.len(),
{
    if sets.len() == 0 {
        0
    } else {
        match sets.last() {
            Some(c) => c,
            None => last_clean(sets.drop_last()),
        }
    }
}

/// Law: after any sequence of operations on a new store (`views[0]` is the
/// new store, `views[k + 1]` the store after operation `k`), the store is
/// dirty exactly when its revision differs from the clean revision last set
/// by `mark_clean` or a successful `restore`, or from zero when none was.
pub proof fn lemma_dirty_after_operations(views: Seq<SessionView>, sets: Seq<Option<u64>>)
    requires
        views.len() == sets.len() + 1,
        views[0].clean_revision == 0,
        forall|k: int| 0 <= k < sets.len() ==> views[k + 1].clean_revision == match #[trigger] sets[k] {
            Some(c) => c,
            None => views[k].clean_revision,
        },
    ensures
        views.last().clean_revision == last_clean(sets),
        (views.last().revision != views.last().clean_revision) == (views.last().revision != last_clean(sets)),
    decreases sets.len(),
{
    if sets.len() > 0 {
        let n = sets.len() - 1;
        let front = views.drop_last();
        let fsets = sets.drop_last();
        assert forall|k: int| 0 <= k < fsets.len() implies front[k + 1].clean_revision == match #[trigger] fsets[k] {
            Some(c) => c,
            None => front[k].clean_revision,
        } by {
            assert(sets[k] == fsets[k]);
        }
        lemma_dirty_after_operations(front, fsets);
        assert(sets[n] == sets.last());
    }
}

/// Law: marking the current revision clean leaves the store clean.
pub proof fn lemma_mark_current_revision_clean(before: SessionView, after: SessionView)
    requires
        after.clean_revision == before.revision,
        after.revision == before.revision,
    ensures
        after.revision == after.clean_revision,
{
}

/// The first value named `name`.
pub fn first_value_named(values: &Vec<(String, String)>, name: &str) -> (r: Option<String>)
    ensures
        opt_chars(r) == pair_value(string_pairs_view(values@), name@),
{
    let ghost pv = string_pairs_view(values@);
    let key: String = name.to_owned();
    let n = values.len();
    let mut i: usize = 0;
    while i < n
        invariant
            n == values@.len(),
            key@ == name@,
            pv == string_pairs_view(values@),
            i <= n,
            pair_index(pv, name@, 0) == pair_index(pv, name@, i as int),
        decreases n - i,
    {
        assert(pv[i as int] == (values@[i as int].0@, values@[i as int].1@));
        if values[i].0 == key {
            assert(pair_index(pv, name@, i as int) == Some(i as int));
            return Some(values[i].1.clone());
        }
        i += 1;
    }
    None
}

/// The mathematical form of an optional string.
pub open spec fn opt_chars(s: Option<String>) -> Option<Seq<char>> {
    match s {
        Some(t) => Some(t@),
        None => None,
    }
}

/// The `Cookie` header value of request cookies: `None` when there are
/// none; otherwise their rendering, when every byte of it is valid in a
/// header value.
pub fn cookie_header_value(values: &Vec<(String, String)>) -> (r: Option<reqwest::header::HeaderValue>)
    ensures
        values@.len() == 0 ==> r is None,
        values@.len() > 0 ==> (r is Some <==> forall|i: int|
            0 <= i < encode_utf8(render_cookie_pairs(string_pairs_view(values@))).len()
                ==> header_value_byte_ok(#[trigger] encode_utf8(render_cookie_pairs(string_pairs_view(values@)))[i])),
        r matches Some(v) ==> header_value_bytes(v) == encode_utf8(render_cookie_pairs(string_pairs_view(values@))),
{
    if values.len() == 0 {
        return None;
    }
    let text = render_pairs(values);
    header_value_from_str(text.as_str())
}

} // verus!
