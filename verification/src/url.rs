//! URL helpers: parsing a URL into its parts, resolving a reference against
//! a base, and `application/x-www-form-urlencoded` encoding and decoding.

use vstd::prelude::*;
use vstd::string::StringSliceAdditionalSpecFns;
use crate::pairs::{distinct_names, lemma_pairs_insert_distinct, lemma_pairs_insert_lookup, pair_index, pair_value, pairs_insert, string_pairs_insert, string_pairs_view};
use crate::text::{chars_to_string, str_to_chars};
use vstd::utf8::encode_utf8;

verus! {

#[verifier::external_type_specification]
#[verifier::external_body]
pub struct ExUrl(::url::Url);

#[verifier::external_type_specification]
#[verifier::external_body]
pub struct ExUrlParseError(::url::ParseError);

/// The parts of a parsed URL. `port` is the explicit port, or the scheme's
/// default port when the scheme has one.
#[derive(Debug)]
pub struct UrlParts {
    pub scheme: String,
    pub host: Option<String>,
    pub port: Option<u16>,
    pub path: String,
    pub query: Option<String>,
    pub fragment: Option<String>,
}

/// The mathematical form of `UrlParts`.
pub struct UrlPartsView {
    pub scheme: Seq<char>,
    pub host: Option<Seq<char>>,
    pub port: Option<u16>,
    pub path: Seq<char>,
    pub query: Option<Seq<char>>,
    pub fragment: Option<Seq<char>>,
}

/// The mathematical form of an optional string.
pub open spec fn opt_str_view(s: Option<String>) -> Option<Seq<char>> {
    match s {
        Some(t) => Some(t@),
        None => None,
    }
}

impl UrlParts {
    pub open spec fn view_of(self) -> UrlPartsView {
        UrlPartsView {
            scheme: self.scheme@,
            host: opt_str_view(self.host),
            port: self.port,
            path: self.path@,
            query: opt_str_view(self.query),
            fragment: opt_str_view(self.fragment),
        }
    }
}

fn clone_opt_str(o: &Option<String>) -> (r: Option<String>)
    ensures
        opt_str_view(r) == opt_str_view(*o),
{
    match o {
        Some(t) => Some(t.clone()),
        None => None,
    }
}

impl UrlParts {
    /// A copy of the parts.
    pub fn copy(&self) -> (r: UrlParts)
        ensures
            r.view_of() == self.view_of(),
    {
        UrlParts {
            scheme: self.scheme.clone(),
            host: clone_opt_str(&self.host),
            port: self.port,
            path: self.path.clone(),
            query: clone_opt_str(&self.query),
            fragment: clone_opt_str(&self.fragment),
        }
    }
}

/// The parts of the URL that `url::Url::parse` reads from `input`, or
/// `None` when it rejects the input.
pub uninterp spec fn parsed_url(input: Seq<char>) -> Option<UrlPartsView>;

/// The text of the URL that `url::Url::join` resolves `reference` to,
/// against the URL parsed from `base`; `None` when it fails.
pub uninterp spec fn joined_url(base: Seq<char>, reference: Seq<char>) -> Option<Seq<char>>;

/// The name/value pairs that `url::form_urlencoded::parse` decodes from `input`,
/// in input order.
pub uninterp spec fn form_pairs(input: Seq<u8>) -> Seq<(Seq<char>, Seq<char>)>;

/// A URL as parsed, with the text it came from and its parts. Only
/// `parse_url` makes one, so the URL value is the parse of the text.
#[derive(Debug)]
pub struct ParsedUrl {
    source: String,
    url: ::url::Url,
    parts: UrlParts,
}

impl ParsedUrl {
    /// The text the URL was parsed from.
    pub closed spec fn source_view(self) -> Seq<char> {
        self.source@
    }

    /// The parts of the URL.
    pub closed spec fn parts_view(self) -> UrlPartsView {
        self.parts.view_of()
    }

    /// The URL value that parsing produced.
    pub closed spec fn url_value(self) -> ::url::Url {
        self.url
    }

    /// The parsed URL.
    pub fn url(&self) -> (r: &::url::Url)
        ensures
            *r == self.url_value(),
    {
        &self.url
    }

    /// Parses a URL, keeping the text; `None` when the text is not a URL.
    pub fn parse(u: &str) -> (r: Option<ParsedUrl>)
        ensures
            r is None <==> parsed_url(u@) is None,
            r matches Some(p) ==> p.source_view() == u@ && parsed_url(u@) == Some(p.parts_view()),
    {
        match parse_url(u) {
            Ok(p) => Some(p),
            Err(_) => None,
        }
    }

    /// The parts of the URL.
    pub fn parts(&self) -> (r: &UrlParts)
        ensures
            r.view_of() == self.parts_view(),
    {
        &self.parts
    }
}

/// Parses a URL.
///
/// Trusted: calls `url::Url::parse` and reads the result's `scheme`,
/// `host_str`, `port_or_known_default`, `path`, `query` and `fragment`. The
/// contract claims that the outcome is `parsed_url` of the input: a function
/// of the text alone.
#[verifier::external_body]
pub(crate) fn parse_url(input: &str) -> (r: Result<ParsedUrl, ::url::ParseError>)
    ensures
        match r {
            Ok(p) => parsed_url(input@) == Some(p.parts_view()) && p.source_view() == input@,
            Err(_) => parsed_url(input@) is None,
        },
{
    let url = ::url::Url::parse(input)?;
    let parts = UrlParts {
        scheme: url.scheme().to_string(),
        host: url.host_str().map(str::to_owned),
        port: url.port_or_known_default(),
        path: url.path().to_string(),
        query: url.query().map(str::to_owned),
        fragment: url.fragment().map(str::to_owned),
    };
    Ok(ParsedUrl { source: input.to_string(), url, parts })
}

/// Resolves a reference against a parsed base URL.
///
/// Trusted: calls `url::Url::join` and renders the result with `Url::as_str`.
/// The contract claims the outcome is `joined_url` of the base's source text
/// and the reference.
#[verifier::external_body]
fn join_parsed(base: &ParsedUrl, reference: &str) -> (r: Option<String>)
    ensures
        opt_str_view(r) == joined_url(base.source_view(), reference@),
{
    base.url.join(reference).ok().map(|u| u.as_str().to_string())
}

/// Decodes `application/x-www-form-urlencoded` text into name/value pairs.
///
/// Trusted: calls `url::form_urlencoded::parse` on the UTF-8 bytes of the input
/// and collects the pairs as owned strings; the contract claims the result is
/// `form_pairs` of those bytes. It also claims what the parser's source
/// shows of `value=` followed by a form-encoded text: the encoding holds no
/// `&` or `=` (they are `%26` and `%3D`), `+` decodes to the space it
/// encodes, `%XX` decodes to its byte, and valid UTF-8 decodes without
/// loss, so the one pair is `value` and the text.
#[verifier::external_body]
fn parse_form(input: &str) -> (r: Vec<(String, String)>)
    ensures
        string_pairs_view(r@) == form_pairs(input.spec_bytes()),
        forall|t: Seq<char>|
            input.spec_bytes() == encode_utf8(value_name() + seq!['='] + #[trigger] form_serialize(encode_utf8(t)))
                ==> string_pairs_view(r@) == seq![(value_name(), t)],
{
    ::url::form_urlencoded::parse(input.as_bytes()).map(|(k, v)| (k.into_owned(), v.into_owned())).collect()
}

/// Whether `url::form_urlencoded::byte_serialize` copies a byte unchanged.
pub open spec fn form_byte_unchanged(b: u8) -> bool {
    ||| b == 42
    ||| b == 45
    ||| b == 46
    ||| 48 <= b <= 57
    ||| 65 <= b <= 90
    ||| b == 95
    ||| 97 <= b <= 122
}

/// The upper-case hexadecimal digit for a value below sixteen.
pub open spec fn upper_hex_digit(v: u8) -> char {
    if v < 10 {
        ((v + 48) as u8) as char
    } else {
        ((v + 55) as u8) as char
    }
}

/// The form encoding of one byte: unchanged, `+` for a space, or `%XX`.
pub open spec fn form_byte_text(b: u8) -> Seq<char> {
    if form_byte_unchanged(b) {
        seq![b as char]
    } else if b == 32 {
        seq!['+']
    } else {
        seq!['%', upper_hex_digit(b / 16), upper_hex_digit(b % 16)]
    }
}

/// The `application/x-www-form-urlencoded` byte serialization.
pub open spec fn form_serialize(bytes: Seq<u8>) -> Seq<char>
    decreases bytes.len(),
{
    if bytes.len() == 0 {
        Seq::empty()
    } else {
        form_byte_text(bytes[0]) + form_serialize(bytes.drop_first())
    }
}

/// Serializes bytes in the form encoding.
///
/// Trusted: calls `url::form_urlencoded::byte_serialize` and concatenates
/// the pieces. The contract states its whole behaviour, as its source
/// shows: bytes `*-._0-9A-Za-z` are kept, a space becomes `+`, and every
/// other byte becomes `%` and two upper-case hexadecimal digits.
#[verifier::external_body]
fn byte_serialize(bytes: &[u8]) -> (r: String)
    ensures
        r@ == form_serialize(bytes@),
{
    ::url::form_urlencoded::byte_serialize(bytes).collect::<String>()
}

/// Encodes text as a form component: the form encoding of its UTF-8 bytes.
pub fn encode_component(s: &str) -> (r: String)
    ensures
        r@ == form_serialize(s.spec_bytes()),
{
    byte_serialize(s.as_bytes())
}

/// The host of a URL, or `None` when the text is not a URL or the URL has
/// no host.
pub fn host(u: &str) -> (r: Option<String>)
    ensures
        opt_str_view(r) == match parsed_url(u@) {
            Some(p) => p.host,
            None => None,
        },
{
    match parse_url(u) {
        Ok(p) => clone_opt_str(&p.parts().host),
        Err(_) => None,
    }
}

/// The parts of a URL, or `None` when the text is not a URL.
pub fn parse(u: &str) -> (r: Option<UrlParts>)
    ensures
        match r {
            Some(p) => parsed_url(u@) == Some(p.view_of()),
            None => parsed_url(u@) is None,
        },
{
    match parse_url(u) {
        Ok(p) => Some(p.parts().copy()),
        Err(_) => None,
    }
}

/// The URL that `reference` resolves to against `base`; `None` when `base`
/// is not a URL or the resolution fails.
pub fn join(base: &str, reference: &str) -> (r: Option<String>)
    ensures
        parsed_url(base@) is None ==> r is None,
        parsed_url(base@) is Some ==> opt_str_view(r) == joined_url(base@, reference@),
{
    match parse_url(base) {
        Ok(b) => join_parsed(&b, reference),
        Err(_) => None,
    }
}

/// Inserts, in order, the first `n` pairs of `ps` into `acc`.
pub open spec fn insert_all(acc: Seq<(Seq<char>, Seq<char>)>, ps: Seq<(Seq<char>, Seq<char>)>, n: nat) -> Seq<(Seq<char>, Seq<char>)>
    decreases n,
{
    if n == 0 || n > ps.len() {
        acc
    } else {
        pairs_insert(insert_all(acc, ps, (n - 1) as nat), ps[n - 1].0, ps[n - 1].1)
    }
}

/// The table that decoding a form gives: each name once, in order of first
/// appearance, with the last value given for it.
pub open spec fn form_table(input: Seq<u8>) -> Seq<(Seq<char>, Seq<char>)> {
    insert_all(Seq::empty(), form_pairs(input), form_pairs(input).len())
}

/// The value of the last of the first `n` pairs named `key`.
pub open spec fn last_value(ps: Seq<(Seq<char>, Seq<char>)>, key: Seq<char>, n: nat) -> Option<Seq<char>>
    decreases n,
{
    if n == 0 || n > ps.len() {
        None
    } else if ps[n - 1].0 == key {
        Some(ps[n - 1].1)
    } else {
        last_value(ps, key, (n - 1) as nat)
    }
}

proof fn lemma_insert_all_lookup(acc: Seq<(Seq<char>, Seq<char>)>, ps: Seq<(Seq<char>, Seq<char>)>, n: nat, key: Seq<char>)
    ensures
        pair_value(insert_all(acc, ps, n), key) == match last_value(ps, key, n) {
            Some(v) => Some(v),
            None => pair_value(acc, key),
        },
    decreases n,
{
    if 0 < n <= ps.len() {
        lemma_insert_all_lookup(acc, ps, (n - 1) as nat, key);
        lemma_pairs_insert_lookup(insert_all(acc, ps, (n - 1) as nat), ps[n - 1].0, ps[n - 1].1, key);
    }
}

proof fn lemma_insert_all_distinct(acc: Seq<(Seq<char>, Seq<char>)>, ps: Seq<(Seq<char>, Seq<char>)>, n: nat)
    requires
        distinct_names(acc),
    ensures
        distinct_names(insert_all(acc, ps, n)),
    decreases n,
{
    if 0 < n <= ps.len() {
        lemma_insert_all_distinct(acc, ps, (n - 1) as nat);
        lemma_pairs_insert_distinct(insert_all(acc, ps, (n - 1) as nat), ps[n - 1].0, ps[n - 1].1);
    }
}

/// Law: decoding a form into a table names each key once, and the value of
/// a key is the last value the form gives it.
pub proof fn lemma_form_table_last_wins(input: Seq<u8>, key: Seq<char>)
    ensures
        distinct_names(form_table(input)),
        pair_value(form_table(input), key) == last_value(form_pairs(input), key, form_pairs(input).len()),
{
    let ps = form_pairs(input);
    lemma_insert_all_lookup(Seq::empty(), ps, ps.len(), key);
    lemma_insert_all_distinct(Seq::empty(), ps, ps.len());
}

/// Decodes form text into a table of names and values (a later value for a
/// name replaces an earlier one).
pub fn decode(s: &str) -> (r: Vec<(String, String)>)
    ensures
        string_pairs_view(r@) == form_table(s.spec_bytes()),
{
    let ghost bytes = s.spec_bytes();
    let pairs = parse_form(s);
    let ghost ps = string_pairs_view(pairs@);
    let mut out: Vec<(String, String)> = Vec::new();
    assert(string_pairs_view(out@) =~= Seq::<(Seq<char>, Seq<char>)>::empty());
    let n = pairs.len();
    for i in 0..n
        invariant
            n == pairs@.len(),
            ps == string_pairs_view(pairs@),
            ps == form_pairs(bytes),
            string_pairs_view(out@) == insert_all(Seq::empty(), ps, i as nat),
    {
        assert(ps[i as int] == (pairs@[i as int].0@, pairs@[i as int].1@));
        string_pairs_insert(&mut out, pairs[i].0.clone(), pairs[i].1.clone());
    }
    out
}

/// The characters of the name `value`.
pub open spec fn value_name() -> Seq<char> {
    seq!['v', 'a', 'l', 'u', 'e']
}

fn value_name_chars() -> (r: Vec<char>)
    ensures
        r@ == value_name(),
{
    let mut v: Vec<char> = Vec::new();
    v.push('v');
    v.push('a');
    v.push('l');
    v.push('u');
    v.push('e');
    assert(v@ =~= value_name());
    v
}

/// Decodes one form component: the value of the first pair named `value`
/// when `value=` followed by the text is decoded as a form, or the empty
/// string when there is none.
pub fn decode_component(s: &str) -> (r: String)
    ensures
        r@ == match pair_value(form_pairs(encode_utf8(value_name() + seq!['='] + s@)), value_name()) {
            Some(v) => v,
            None => Seq::empty(),
        },
        forall|t: Seq<char>| s@ == #[trigger] form_serialize(encode_utf8(t)) ==> r@ == t,
{
    let mut chars = value_name_chars();
    chars.push('=');
    let mut rest = str_to_chars(s);
    chars.append(&mut rest);
    let text = chars_to_string(&chars);
    assert(text@ =~= value_name() + seq!['='] + s@);
    let pairs = parse_form(text.as_str());
    let ghost ps = string_pairs_view(pairs@);
    assert(ps == form_pairs(encode_utf8(value_name() + seq!['='] + s@)));
    assert forall|t: Seq<char>| s@ == #[trigger] form_serialize(encode_utf8(t)) implies pair_value(ps, value_name()) == Some(t) by {
        assert(ps == seq![(value_name(), t)]);
        assert(pair_index(ps, value_name(), 0) == Some(0int));
    }
    let key = chars_to_string(&value_name_chars());
    let n = pairs.len();
    let mut i: usize = 0;
    while i < n
        invariant
            n == pairs@.len(),
            ps == string_pairs_view(pairs@),
            key@ == value_name(),
            ps == form_pairs(encode_utf8(value_name() + seq!['='] + s@)),
            i <= n,
            pair_index(ps, key@, 0) == pair_index(ps, key@, i as int),
            forall|t: Seq<char>| s@ == #[trigger] form_serialize(encode_utf8(t)) ==> pair_value(ps, value_name()) == Some(t),
        decreases n - i,
    {
        assert(ps[i as int] == (pairs@[i as int].0@, pairs@[i as int].1@));
        if pairs[i].0 == key {
            assert(pair_index(ps, key@, i as int) == Some(i as int));
            return pairs[i].1.clone();
        }
        i += 1;
    }
    String::new()
}

} // verus!
