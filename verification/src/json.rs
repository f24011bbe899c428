//! Conversion between script values and JSON documents.
//!
//! A script value (`ScriptValue`) is what the scripting host hands over:
//! nil, booleans, integers, floats, byte strings, tables and values that
//! have no JSON form (functions, threads, user data). A JSON document
//! (`JsonValue`) is the library's own model of a parsed JSON text, which
//! `parse` reads from text and `encode` writes as text (both through
//! `serde_json`). This module decides how values map between the two
//! worlds:
//!
//! - a table whose keys are all integers, whose reported length is positive
//!   and equal to its number of entries becomes an array of the values at
//!   keys `1..=len` (a missing key gives `null`);
//! - any other table becomes an object whose keys are string keys (which
//!   must be valid UTF-8), integer keys in decimal and float keys in their
//!   decimal rendering; entries under other keys are dropped and a later
//!   entry under the same text replaces an earlier one;
//! - non-finite floats, strings that are not UTF-8 and values without JSON
//!   form make the whole conversion fail.

use vstd::prelude::*;
use vstd::utf8::*;
use vstd::slice::slice_to_vec;
use vstd::string::StringSliceAdditionalSpecFns;
use crate::text::{chars_to_string, int_text, i64_text, utf8_to_string};

verus! {

/// The largest JSON input, in bytes, that the parser accepts.
pub const MAX_INPUT_BYTES: usize = 16777216;

/// A floating-point number as the library holds it: its IEEE-754 bits and
/// its decimal rendering as Rust's `Display` writes it. The library never
/// computes with floats; the host supplies both parts.
#[derive(Debug)]
pub struct FloatRepr {
    pub bits: u64,
    pub text: String,
}

/// The mathematical form of a `FloatRepr`.
pub struct FloatView {
    pub bits: u64,
    pub text: Seq<char>,
}

impl FloatRepr {
    pub open spec fn view_of(self) -> FloatView {
        FloatView { bits: self.bits, text: self.text@ }
    }
}

/// A JSON number: an integer or a float.
#[derive(Debug)]
pub enum JsonNumber {
    Int(i64),
    Float(FloatRepr),
}

/// The mathematical form of a `JsonNumber`.
pub enum JsonNumberView {
    Int(i64),
    Float(FloatView),
}

impl JsonNumber {
    pub open spec fn view_of(self) -> JsonNumberView {
        match self {
            JsonNumber::Int(i) => JsonNumberView::Int(i),
            JsonNumber::Float(f) => JsonNumberView::Float(f.view_of()),
        }
    }
}

/// A JSON document. Object entries keep their first-insertion order and,
/// when built by this module, have distinct keys.
#[derive(Debug)]
pub enum JsonValue {
    Null,
    Bool(bool),
    Number(JsonNumber),
    String(String),
    Array(Vec<JsonValue>),
    Object(Vec<(String, JsonValue)>),
}

/// The mathematical form of a JSON document.
pub enum JsonView {
    Null,
    Bool(bool),
    Number(JsonNumberView),
    String(Seq<char>),
    Array(Seq<JsonView>),
    Object(Seq<(Seq<char>, JsonView)>),
}

impl JsonValue {
    pub open spec fn view_of(self) -> JsonView
        decreases self,
    {
        match self {
            JsonValue::Null => JsonView::Null,
            JsonValue::Bool(b) => JsonView::Bool(b),
            JsonValue::Number(n) => JsonView::Number(n.view_of()),
            JsonValue::String(s) => JsonView::String(s@),
            JsonValue::Array(items) => JsonView::Array(items_view(items@)),
            JsonValue::Object(entries) => JsonView::Object(object_view(entries@)),
        }
    }
}

/// A value of the scripting host.
///
/// `Table(entries, border)` holds a table's raw entries in the order the
/// host walks them (keys are distinct) and the length the host reports
/// for it (`#t` without metamethods).
#[derive(Debug)]
pub enum ScriptValue {
    Nil,
    Boolean(bool),
    Integer(i64),
    Number(FloatRepr),
    String(Vec<u8>),
    Table(Vec<(ScriptValue, ScriptValue)>, usize),
    Other,
}

/// The mathematical form of a script value.
pub enum ScriptView {
    Nil,
    Boolean(bool),
    Integer(i64),
    Number(FloatView),
    String(Seq<u8>),
    Table(Seq<(ScriptView, ScriptView)>, nat),
    Other,
}

impl ScriptValue {
    pub open spec fn view_of(self) -> ScriptView
        decreases self,
    {
        match self {
            ScriptValue::Nil => ScriptView::Nil,
            ScriptValue::Boolean(b) => ScriptView::Boolean(b),
            ScriptValue::Integer(i) => ScriptView::Integer(i),
            ScriptValue::Number(f) => ScriptView::Number(f.view_of()),
            ScriptValue::String(bytes) => ScriptView::String(bytes@),
            ScriptValue::Table(entries, border) => ScriptView::Table(
                entries_view(entries@),
                border as nat,
            ),
            ScriptValue::Other => ScriptView::Other,
        }
    }
}

/// The mathematical form of a table's entries.
pub open spec fn entries_view(entries: Seq<(ScriptValue, ScriptValue)>) -> Seq<(ScriptView, ScriptView)>
    decreases entries,
{
    Seq::new(
        entries.len(),
        |i: int|
            if 0 <= i < entries.len() {
                (entries[i].0.view_of(), entries[i].1.view_of())
            } else {
                (ScriptView::Nil, ScriptView::Nil)
            },
    )
}

/// The mathematical form of JSON object entries.
pub open spec fn object_view(entries: Seq<(String, JsonValue)>) -> Seq<(Seq<char>, JsonView)>
    decreases entries,
{
    Seq::new(
        entries.len(),
        |i: int|
            if 0 <= i < entries.len() {
                (entries[i].0@, entries[i].1.view_of())
            } else {
                (Seq::empty(), JsonView::Null)
            },
    )
}

/// The mathematical form of a sequence of JSON documents.
pub open spec fn items_view(items: Seq<JsonValue>) -> Seq<JsonView>
    decreases items,
{
    Seq::new(items.len(), |i: int| if 0 <= i < items.len() { items[i].view_of() } else { JsonView::Null })
}

/// The mathematical form of an optional JSON document.
pub open spec fn json_opt_view(r: Option<JsonValue>) -> Option<JsonView> {
    match r {
        Some(j) => Some(j.view_of()),
        None => None,
    }
}

/// Whether the IEEE-754 bits describe a finite number (the exponent is not
/// all ones).
pub open spec fn float_is_finite(bits: u64) -> bool {
    (bits >> 52u64) & 0x7ffu64 != 0x7ffu64
}

/// The position of the first entry whose key is the integer `k`, searching
/// from position `i`.
pub open spec fn integer_key_index(entries: Seq<(ScriptView, ScriptView)>, k: int, i: int) -> Option<int>
    decreases entries.len() - i,
{
    if i < 0 || i >= entries.len() {
        None
    } else if entries[i].0 matches ScriptView::Integer(x) && x == k {
        Some(i)
    } else {
        integer_key_index(entries, k, i + 1)
    }
}

/// Whether every key of the entries is an integer.
pub open spec fn all_integer_keys(entries: Seq<(ScriptView, ScriptView)>) -> bool {
    forall|i: int| 0 <= i < entries.len() ==> (#[trigger] entries[i]).0 is Integer
}

/// Whether a table is converted to a JSON array.
pub open spec fn is_array_table(entries: Seq<(ScriptView, ScriptView)>, border: nat) -> bool {
    &&& border > 0
    &&& all_integer_keys(entries)
    &&& entries.len() == border
}

/// What a table key contributes to a JSON object.
pub enum KeyText {
    /// The entry is left out.
    Skip,
    /// The conversion fails.
    Fail,
    /// The entry is stored under this text.
    Text(Seq<char>),
}

/// The object key that a table key gives.
pub open spec fn key_text(k: ScriptView) -> KeyText {
    match k {
        ScriptView::String(bytes) => if valid_utf8(bytes) {
            KeyText::Text(decode_utf8(bytes))
        } else {
            KeyText::Fail
        },
        ScriptView::Integer(i) => KeyText::Text(int_text(i as int)),
        ScriptView::Number(f) => KeyText::Text(f.text),
        _ => KeyText::Skip,
    }
}

/// The position of the first entry under `key`, searching from `i`.
pub open spec fn entry_index(entries: Seq<(Seq<char>, JsonView)>, key: Seq<char>, i: int) -> Option<int>
    decreases entries.len() - i,
{
    if i < 0 || i >= entries.len() {
        None
    } else if entries[i].0 == key {
        Some(i)
    } else {
        entry_index(entries, key, i + 1)
    }
}

/// Map insertion on object entries: replace the value of an existing key in
/// place, or append a new entry.
pub open spec fn entries_insert(entries: Seq<(Seq<char>, JsonView)>, key: Seq<char>, value: JsonView) -> Seq<(Seq<char>, JsonView)> {
    match entry_index(entries, key, 0) {
        Some(j) => entries.update(j, (key, value)),
        None => entries.push((key, value)),
    }
}

/// The JSON form of a script value, or `None` when it has none.
pub open spec fn json_of_script(v: ScriptView) -> Option<JsonView>
    decreases v, 0nat,
{
    match v {
        ScriptView::Nil => Some(JsonView::Null),
        ScriptView::Boolean(b) => Some(JsonView::Bool(b)),
        ScriptView::Integer(i) => Some(JsonView::Number(JsonNumberView::Int(i))),
        ScriptView::Number(f) => if float_is_finite(f.bits) {
            Some(JsonView::Number(JsonNumberView::Float(f)))
        } else {
            None
        },
        ScriptView::String(bytes) => if valid_utf8(bytes) {
            Some(JsonView::String(decode_utf8(bytes)))
        } else {
            None
        },
        ScriptView::Table(entries, border) => if is_array_table(entries, border) {
            match array_items(entries, border) {
                Some(items) => Some(JsonView::Array(items)),
                None => None,
            }
        } else {
            match object_entries(entries, entries.len()) {
                Some(obj) => Some(JsonView::Object(obj)),
                None => None,
            }
        },
        ScriptView::Other => None,
    }
}

/// The JSON form of the table value stored at integer key `k` (nil when
/// the key is absent).
pub open spec fn array_item(entries: Seq<(ScriptView, ScriptView)>, k: nat) -> Option<JsonView>
    decreases entries, 0nat,
{
    match integer_key_index(entries, k as int, 0) {
        Some(j) => if 0 <= j < entries.len() {
            json_of_script(entries[j].1)
        } else {
            Some(JsonView::Null)
        },
        None => Some(JsonView::Null),
    }
}

/// The JSON forms of the values at keys `1..=n`, or `None` when one fails.
pub open spec fn array_items(entries: Seq<(ScriptView, ScriptView)>, n: nat) -> Option<Seq<JsonView>>
    decreases entries, n,
{
    if n == 0 {
        Some(Seq::empty())
    } else {
        match array_items(entries, (n - 1) as nat) {
            None => None,
            Some(prev) => match array_item(entries, n) {
                None => None,
                Some(item) => Some(prev.push(item)),
            },
        }
    }
}

/// The object built from the first `n` entries, or `None` when one fails.
pub open spec fn object_entries(entries: Seq<(ScriptView, ScriptView)>, n: nat) -> Option<Seq<(Seq<char>, JsonView)>>
    decreases entries, n,
{
    if n == 0 || n > entries.len() {
        if n == 0 { Some(Seq::empty()) } else { None }
    } else {
        match object_entries(entries, (n - 1) as nat) {
            None => None,
            Some(prev) => match key_text(entries[n - 1].0) {
                KeyText::Skip => Some(prev),
                KeyText::Fail => None,
                KeyText::Text(t) => match json_of_script(entries[n - 1].1) {
                    None => None,
                    Some(j) => Some(entries_insert(prev, t, j)),
                },
            },
        }
    }
}

/// The number of leading items, from position `i` on, that are not `null`,
/// plus `i`: the first position at or after `i` that holds `null` or lies
/// past the end.
pub open spec fn first_null_from(items: Seq<JsonView>, i: int) -> int
    decreases items.len() - i,
{
    if i < 0 || i >= items.len() || items[i] is Null {
        i
    } else {
        first_null_from(items, i + 1)
    }
}

/// The table entries of a JSON array's first `n` items: key `k` holds the
/// script form of item `k` (counting from one); `null` items leave no entry.
pub open spec fn array_entries(items: Seq<JsonView>, n: nat) -> Seq<(ScriptView, ScriptView)>
    decreases items, n,
{
    if n == 0 || n > items.len() {
        Seq::empty()
    } else {
        let prev = array_entries(items, (n - 1) as nat);
        if items[n - 1] is Null {
            prev
        } else {
            prev.push((ScriptView::Integer(n as i64), script_of_json(items[n - 1])))
        }
    }
}

/// The table entries of a JSON object's first `n` entries: each key as a
/// UTF-8 string; entries whose value is `null` are left out.
pub open spec fn object_entries_script(entries: Seq<(Seq<char>, JsonView)>, n: nat) -> Seq<(ScriptView, ScriptView)>
    decreases entries, n,
{
    if n == 0 || n > entries.len() {
        Seq::empty()
    } else {
        let prev = object_entries_script(entries, (n - 1) as nat);
        if entries[n - 1].1 is Null {
            prev
        } else {
            prev.push((ScriptView::String(encode_utf8(entries[n - 1].0)), script_of_json(entries[n - 1].1)))
        }
    }
}

/// The script form of a JSON document. Arrays become tables keyed from one
/// whose reported length is the number of leading non-`null` items (a
/// border of the table); objects become tables keyed by strings.
pub open spec fn script_of_json(j: JsonView) -> ScriptView
    decreases j, 0nat,
{
    match j {
        JsonView::Null => ScriptView::Nil,
        JsonView::Bool(b) => ScriptView::Boolean(b),
        JsonView::Number(JsonNumberView::Int(i)) => ScriptView::Integer(i),
        JsonView::Number(JsonNumberView::Float(f)) => ScriptView::Number(f),
        JsonView::String(s) => ScriptView::String(encode_utf8(s)),
        JsonView::Array(items) => ScriptView::Table(
            array_entries(items, items.len()),
            first_null_from(items, 0) as nat,
        ),
        JsonView::Object(entries) => ScriptView::Table(object_entries_script(entries, entries.len()), 0),
    }
}

/// Once the array conversion has failed for a prefix, it fails for every
/// longer prefix.
proof fn lemma_array_items_none(entries: Seq<(ScriptView, ScriptView)>, m: nat, n: nat)
    requires
        m <= n,
        array_items(entries, m) is None,
    ensures
        array_items(entries, n) is None,
    decreases n,
{
    if n > m {
        lemma_array_items_none(entries, m, (n - 1) as nat);
    }
}

/// Once the object conversion has failed for a prefix, it fails for every
/// longer prefix.
proof fn lemma_object_entries_none(entries: Seq<(ScriptView, ScriptView)>, m: nat, n: nat)
    requires
        m <= n,
        object_entries(entries, m) is None,
    ensures
        object_entries(entries, n) is None,
    decreases n,
{
    if n > m {
        lemma_object_entries_none(entries, m, (n - 1) as nat);
    }
}

fn find_integer_key(entries: &Vec<(ScriptValue, ScriptValue)>, k: usize) -> (r: Option<usize>)
    ensures
        match r {
            Some(j) => j < entries@.len() && integer_key_index(entries_view(entries@), k as int, 0)
                == Some(j as int),
            None => integer_key_index(entries_view(entries@), k as int, 0) is None,
        },
{
    let ghost ev = entries_view(entries@);
    let n = entries.len();
    let mut i: usize = 0;
    while i < n
        invariant
            n == entries@.len(),
            ev == entries_view(entries@),
            i <= n,
            integer_key_index(ev, k as int, 0) == integer_key_index(ev, k as int, i as int),
        decreases n - i,
    {
        assert(ev[i as int].0 == entries@[i as int].0.view_of());
        if let ScriptValue::Integer(x) = &entries[i].0 {
            if *x >= 0 && (*x as u64) == (k as u64) {
                return Some(i);
            }
        }
        i += 1;
    }
    None
}

fn only_integer_keys(entries: &Vec<(ScriptValue, ScriptValue)>) -> (r: bool)
    ensures
        r == all_integer_keys(entries_view(entries@)),
{
    let ghost ev = entries_view(entries@);
    let n = entries.len();
    let mut i: usize = 0;
    while i < n
        invariant
            n == entries@.len(),
            ev == entries_view(entries@),
            i <= n,
            forall|j: int| 0 <= j < i ==> (#[trigger] ev[j]).0 is Integer,
        decreases n - i,
    {
        assert(ev[i as int].0 == entries@[i as int].0.view_of());
        if let ScriptValue::Integer(_) = &entries[i].0 {
        } else {
            return false;
        }
        i += 1;
    }
    true
}

enum TableKey {
    Skip,
    Fail,
    Text(String),
}

fn table_key_text(k: &ScriptValue) -> (r: TableKey)
    ensures
        match r {
            TableKey::Skip => key_text(k.view_of()) is Skip,
            TableKey::Fail => key_text(k.view_of()) is Fail,
            TableKey::Text(t) => key_text(k.view_of()) == KeyText::Text(t@),
        },
{
    match k {
        ScriptValue::String(bytes) => match utf8_to_string(bytes) {
            Some(t) => TableKey::Text(t),
            None => TableKey::Fail,
        },
        ScriptValue::Integer(i) => TableKey::Text(i64_text(*i)),
        ScriptValue::Number(f) => TableKey::Text(f.text.clone()),
        _ => TableKey::Skip,
    }
}

fn object_insert(obj: &mut Vec<(String, JsonValue)>, key: String, value: JsonValue)
    ensures
        object_view(final(obj)@) == entries_insert(object_view(old(obj)@), key@, value.view_of()),
{
    let ghost ov = object_view(obj@);
    let n = obj.len();
    let mut i: usize = 0;
    while i < n
        invariant
            n == obj@.len(),
            obj@ == old(obj)@,
            ov == object_view(obj@),
            i <= n,
            entry_index(ov, key@, 0) == entry_index(ov, key@, i as int),
        decreases n - i,
    {
        assert(ov[i as int].0 == obj@[i as int].0@);
        if obj[i].0 == key {
            let ghost kv = key@;
            let ghost vv = value.view_of();
            assert(entry_index(ov, kv, i as int) == Some(i as int));
            obj[i] = (key, value);
            assert(object_view(obj@) =~= ov.update(i as int, (kv, vv)));
            return;
        }
        i += 1;
    }
    let ghost kv = key@;
    let ghost vv = value.view_of();
    obj.push((key, value));
    assert(object_view(obj@) =~= ov.push((kv, vv)));
}

/// Converts a script value to its JSON form; `None` when it has none.
pub fn lua_to_json(v: &ScriptValue) -> (r: Option<JsonValue>)
    ensures
        json_opt_view(r) == json_of_script(v.view_of()),
    decreases v,
{
    match v {
        ScriptValue::Nil => Some(JsonValue::Null),
        ScriptValue::Boolean(b) => Some(JsonValue::Bool(*b)),
        ScriptValue::Integer(i) => Some(JsonValue::Number(JsonNumber::Int(*i))),
        ScriptValue::Number(f) => {
            if (f.bits >> 52u64) & 0x7ffu64 != 0x7ffu64 {
                Some(JsonValue::Number(JsonNumber::Float(FloatRepr { bits: f.bits, text: f.text.clone() })))
            } else {
                None
            }
        },
        ScriptValue::String(bytes) => match utf8_to_string(bytes) {
            Some(t) => Some(JsonValue::String(t)),
            None => None,
        },
        ScriptValue::Table(entries, border) => table_to_json(entries, *border),
        ScriptValue::Other => None,
    }
}

fn table_to_json(entries: &Vec<(ScriptValue, ScriptValue)>, border: usize) -> (r: Option<JsonValue>)
    ensures
        json_opt_view(r) == json_of_script(ScriptView::Table(entries_view(entries@), border as nat)),
    decreases entries,
{
    let ghost ev = entries_view(entries@);
    let n = entries.len();
    if border > 0 && only_integer_keys(entries) && n == border {
        let mut items: Vec<JsonValue> = Vec::new();
        assert(items_view(items@) =~= Seq::<JsonView>::empty());
        for i in 0..border
            invariant
                n == entries@.len(),
                n == border,
                ev == entries_view(entries@),
                is_array_table(ev, border as nat),
                items@.len() == i,
                array_items(ev, i as nat) == Some(items_view(items@)),
        {
            let k = i + 1;
            let item = match find_integer_key(entries, k) {
                Some(j) => lua_to_json(&entries[j].1),
                None => Some(JsonValue::Null),
            };
            assert(array_item(ev, k as nat) == json_opt_view(item));
            match item {
                None => {
                    proof {
                        lemma_array_items_none(ev, k as nat, border as nat);
                    }
                    return None;
                },
                Some(x) => {
                    let ghost before = items@;
                    items.push(x);
                    assert(items_view(items@) =~= items_view(before).push(items@[i as int].view_of()));
                },
            }
        }
        let r = JsonValue::Array(items);
        assert(r.view_of() == JsonView::Array(items_view(items@)));
        Some(r)
    } else {
        let mut obj: Vec<(String, JsonValue)> = Vec::new();
        assert(object_view(obj@) =~= Seq::<(Seq<char>, JsonView)>::empty());
        for i in 0..n
            invariant
                n == entries@.len(),
                ev == entries_view(entries@),
                !is_array_table(ev, border as nat),
                object_entries(ev, i as nat) == Some(object_view(obj@)),
        {
            assert(ev[i as int] == (entries@[i as int].0.view_of(), entries@[i as int].1.view_of()));
            match table_key_text(&entries[i].0) {
                TableKey::Skip => {},
                TableKey::Fail => {
                    proof {
                        lemma_object_entries_none(ev, (i + 1) as nat, n as nat);
                    }
                    return None;
                },
                TableKey::Text(t) => match lua_to_json(&entries[i].1) {
                    None => {
                        proof {
                            lemma_object_entries_none(ev, (i + 1) as nat, n as nat);
                        }
                        return None;
                    },
                    Some(j) => object_insert(&mut obj, t, j),
                },
            }
        }
        let r = JsonValue::Object(obj);
        assert(r.view_of() == JsonView::Object(object_view(obj@)));
        Some(r)
    }
}


/// The JSON documents that come back unchanged from a trip through script
/// values: floats are finite, arrays are non-empty and hold no `null`,
/// objects have distinct keys and no `null` values, and no array is longer
/// than the largest script integer.
pub open spec fn survives_round_trip(j: JsonView) -> bool
    decreases j,
{
    match j {
        JsonView::Number(JsonNumberView::Float(f)) => float_is_finite(f.bits),
        JsonView::Array(items) => {
            &&& 0 < items.len() <= i64::MAX
            &&& forall|i: int| 0 <= i < items.len() ==> !(#[trigger] items[i] is Null)
            &&& forall|i: int| 0 <= i < items.len() ==> survives_round_trip(#[trigger] items[i])
        },
        JsonView::Object(entries) => {
            &&& forall|a: int, b: int|
                0 <= a < b < entries.len() ==> #[trigger] entries[a].0 != #[trigger] entries[b].0
            &&& forall|i: int| 0 <= i < entries.len() ==> !(#[trigger] entries[i].1 is Null)
            &&& forall|i: int| 0 <= i < entries.len() ==> survives_round_trip(#[trigger] entries[i].1)
        },
        _ => true,
    }
}

proof fn lemma_array_entries_shape(items: Seq<JsonView>, m: nat)
    requires
        m <= items.len(),
        forall|i: int| 0 <= i < items.len() ==> !(#[trigger] items[i] is Null),
    ensures
        array_entries(items, m).len() == m,
        forall|k: int|
            0 <= k < m ==> #[trigger] array_entries(items, m)[k] == (
                ScriptView::Integer((k + 1) as i64),
                script_of_json(items[k]),
            ),
    decreases m,
{
    if m > 0 {
        lemma_array_entries_shape(items, (m - 1) as nat);
        assert(!(items[m - 1] is Null));
    }
}

proof fn lemma_integer_key_found(entries: Seq<(ScriptView, ScriptView)>, k: int, i: int)
    requires
        0 <= i < k <= entries.len() <= i64::MAX,
        forall|j: int| 0 <= j < entries.len() ==> (#[trigger] entries[j]).0 == ScriptView::Integer((j + 1) as i64),
    ensures
        integer_key_index(entries, k, i) == Some(k - 1),
    decreases k - i,
{
    assert(entries[i].0 == ScriptView::Integer((i + 1) as i64));
    if i < k - 1 {
        lemma_integer_key_found(entries, k, i + 1);
    }
}

proof fn lemma_array_items_round_trip(items: Seq<JsonView>, m: nat)
    requires
        m <= items.len() <= i64::MAX,
        forall|i: int| 0 <= i < items.len() ==> !(#[trigger] items[i] is Null),
        forall|i: int| 0 <= i < items.len() ==> json_of_script(script_of_json(#[trigger] items[i])) == Some(items[i]),
    ensures
        array_items(array_entries(items, items.len()), m) == Some(items.take(m as int)),
    decreases m,
{
    let e = array_entries(items, items.len());
    lemma_array_entries_shape(items, items.len());
    if m > 0 {
        lemma_array_items_round_trip(items, (m - 1) as nat);
        assert forall|j: int| 0 <= j < e.len() implies (#[trigger] e[j]).0 == ScriptView::Integer((j + 1) as i64) by {
        }
        lemma_integer_key_found(e, m as int, 0);
        assert(e[m - 1].1 == script_of_json(items[m - 1]));
        assert(json_of_script(script_of_json(items[m - 1])) == Some(items[m - 1]));
        assert(array_item(e, m) == Some(items[m - 1]));
        assert(items.take(m - 1).push(items[m - 1]) =~= items.take(m as int));
    } else {
        assert(items.take(0) =~= Seq::<JsonView>::empty());
    }
}

proof fn lemma_object_entries_script_shape(entries: Seq<(Seq<char>, JsonView)>, m: nat)
    requires
        m <= entries.len(),
        forall|i: int| 0 <= i < entries.len() ==> !(#[trigger] entries[i].1 is Null),
    ensures
        object_entries_script(entries, m).len() == m,
        forall|k: int|
            0 <= k < m ==> #[trigger] object_entries_script(entries, m)[k] == (
                ScriptView::String(encode_utf8(entries[k].0)),
                script_of_json(entries[k].1),
            ),
    decreases m,
{
    if m > 0 {
        lemma_object_entries_script_shape(entries, (m - 1) as nat);
        assert(!(entries[m - 1].1 is Null));
    }
}

proof fn lemma_entry_index_absent(entries: Seq<(Seq<char>, JsonView)>, key: Seq<char>, i: int)
    requires
        0 <= i,
        forall|j: int| 0 <= j < entries.len() ==> (#[trigger] entries[j]).0 != key,
    ensures
        entry_index(entries, key, i) is None,
    decreases entries.len() - i,
{
    if i < entries.len() {
        assert(entries[i].0 != key);
        lemma_entry_index_absent(entries, key, i + 1);
    }
}

proof fn lemma_object_round_trip(entries: Seq<(Seq<char>, JsonView)>, m: nat)
    requires
        m <= entries.len(),
        forall|a: int, b: int|
            0 <= a < b < entries.len() ==> #[trigger] entries[a].0 != #[trigger] entries[b].0,
        forall|i: int| 0 <= i < entries.len() ==> !(#[trigger] entries[i].1 is Null),
        forall|i: int| 0 <= i < entries.len() ==> json_of_script(script_of_json(#[trigger] entries[i].1)) == Some(entries[i].1),
    ensures
        object_entries(object_entries_script(entries, entries.len()), m) == Some(entries.take(m as int)),
    decreases m,
{
    let e = object_entries_script(entries, entries.len());
    lemma_object_entries_script_shape(entries, entries.len());
    if m > 0 {
        lemma_object_round_trip(entries, (m - 1) as nat);
        let prev = entries.take(m - 1);
        let key = entries[m - 1].0;
        assert(e[m - 1] == (ScriptView::String(encode_utf8(key)), script_of_json(entries[m - 1].1)));
        encode_utf8_valid_utf8(key);
        encode_utf8_decode_utf8(key);
        assert(key_text(e[m - 1].0) == KeyText::Text(key));
        assert forall|j: int| 0 <= j < prev.len() implies (#[trigger] prev[j]).0 != key by {
            assert(prev[j] == entries[j]);
        }
        lemma_entry_index_absent(prev, key, 0);
        assert(prev.push((key, entries[m - 1].1)) =~= entries.take(m as int));
    } else {
        assert(entries.take(0) =~= Seq::<(Seq<char>, JsonView)>::empty());
    }
}

/// Law: a JSON document that survives a round trip (see
/// `survives_round_trip`) is given back unchanged when converted to a script
/// value and back to JSON.
pub proof fn lemma_json_round_trip(j: JsonView)
    requires
        survives_round_trip(j),
    ensures
        json_of_script(script_of_json(j)) == Some(j),
    decreases j,
{
    match j {
        JsonView::String(s) => {
            encode_utf8_valid_utf8(s);
            encode_utf8_decode_utf8(s);
        },
        JsonView::Array(items) => {
            assert forall|i: int| 0 <= i < items.len() implies json_of_script(
                script_of_json(#[trigger] items[i]),
            ) == Some(items[i]) by {
                lemma_json_round_trip(items[i]);
            }
            let e = array_entries(items, items.len());
            lemma_array_entries_shape(items, items.len());
            assert forall|i: int| 0 <= i < e.len() implies (#[trigger] e[i]).0 is Integer by {}
            assert(first_null_from(items, 0) == items.len()) by {
                lemma_first_null_all_present(items, 0);
            }
            lemma_array_items_round_trip(items, items.len());
            assert(items.take(items.len() as int) =~= items);
        },
        JsonView::Object(entries) => {
            assert forall|i: int| 0 <= i < entries.len() implies json_of_script(
                script_of_json(#[trigger] entries[i].1),
            ) == Some(entries[i].1) by {
                lemma_json_round_trip(entries[i].1);
            }
            let e = object_entries_script(entries, entries.len());
            lemma_object_entries_script_shape(entries, entries.len());
            assert(!is_array_table(e, 0));
            lemma_object_round_trip(entries, entries.len());
            assert(entries.take(entries.len() as int) =~= entries);
        },
        _ => {},
    }
}

proof fn lemma_first_null_all_present(items: Seq<JsonView>, i: int)
    requires
        0 <= i <= items.len(),
        forall|k: int| 0 <= k < items.len() ==> !(#[trigger] items[k] is Null),
    ensures
        first_null_from(items, i) == items.len(),
    decreases items.len() - i,
{
    if i < items.len() {
        assert(!(items[i] is Null));
        lemma_first_null_all_present(items, i + 1);
    }
}

/// Why a JSON request was refused.
#[derive(Debug, Clone, Copy, PartialEq, Eq, Structural)]
pub enum JsonError {
    /// The input is longer than `MAX_INPUT_BYTES` bytes.
    InputTooLarge,
}

/// Checks that a JSON text is short enough to be parsed: it is refused
/// exactly when its length in bytes (UTF-8) exceeds `MAX_INPUT_BYTES`.
pub fn check_input_len(value: &str) -> (r: Result<(), JsonError>)
    ensures
        r is Err <==> value.len() > MAX_INPUT_BYTES,
{
    if value.len() > MAX_INPUT_BYTES {
        Err(JsonError::InputTooLarge)
    } else {
        Ok(())
    }
}

/// The script value of a parse result: `nil` when the text was not JSON,
/// the script form of the document otherwise.
pub fn document_to_script(document: Option<JsonValue>) -> (r: ScriptValue)
    ensures
        r.view_of() == match json_opt_view(document) {
            Some(j) => script_of_json(j),
            None => ScriptView::Nil,
        },
{
    match document {
        Some(j) => json_to_lua(&j),
        None => ScriptValue::Nil,
    }
}

#[verifier::external_type_specification]
#[verifier::external_body]
pub struct ExSerdeJsonValue(serde_json::Value);

/// A number as `serde_json` reports it: its value as an `i64` when it has
/// one (`Number::as_i64`), and its value as a float (`Number::as_f64`).
#[derive(Debug)]
pub struct NumberParts {
    pub as_i64: Option<i64>,
    pub as_f64: Option<FloatRepr>,
}

/// The mathematical form of `NumberParts`.
pub struct NumberPartsView {
    pub as_i64: Option<i64>,
    pub as_f64: Option<FloatView>,
}

impl NumberParts {
    pub open spec fn view_of(self) -> NumberPartsView {
        NumberPartsView {
            as_i64: self.as_i64,
            as_f64: match self.as_f64 {
                Some(f) => Some(f.view_of()),
                None => None,
            },
        }
    }
}

/// A JSON document as `serde_json` reads it, its numbers given as parts.
#[derive(Debug)]
pub enum ReadJson {
    Null,
    Bool(bool),
    Number(NumberParts),
    String(String),
    Array(Vec<ReadJson>),
    Object(Vec<(String, ReadJson)>),
}

/// The mathematical form of a `ReadJson`.
pub enum ReadJsonView {
    Null,
    Bool(bool),
    Number(NumberPartsView),
    String(Seq<char>),
    Array(Seq<ReadJsonView>),
    Object(Seq<(Seq<char>, ReadJsonView)>),
}

impl ReadJson {
    pub open spec fn view_of(self) -> ReadJsonView
        decreases self,
    {
        match self {
            ReadJson::Null => ReadJsonView::Null,
            ReadJson::Bool(b) => ReadJsonView::Bool(b),
            ReadJson::Number(n) => ReadJsonView::Number(n.view_of()),
            ReadJson::String(s) => ReadJsonView::String(s@),
            ReadJson::Array(items) => ReadJsonView::Array(read_items_view(items@)),
            ReadJson::Object(entries) => ReadJsonView::Object(read_entries_view(entries@)),
        }
    }
}

/// The mathematical form of a sequence of read documents.
pub open spec fn read_items_view(items: Seq<ReadJson>) -> Seq<ReadJsonView>
    decreases items,
{
    Seq::new(items.len(), |i: int| if 0 <= i < items.len() { items[i].view_of() } else { ReadJsonView::Null })
}

/// The mathematical form of read object entries.
pub open spec fn read_entries_view(entries: Seq<(String, ReadJson)>) -> Seq<(Seq<char>, ReadJsonView)>
    decreases entries,
{
    Seq::new(
        entries.len(),
        |i: int|
            if 0 <= i < entries.len() {
                (entries[i].0@, entries[i].1.view_of())
            } else {
                (Seq::empty(), ReadJsonView::Null)
            },
    )
}

/// The float zero: IEEE-754 bits zero, rendered `0`.
pub open spec fn zero_float() -> FloatView {
    FloatView { bits: 0, text: seq!['0'] }
}

/// The number a JSON number becomes: an integer when it has an `i64`
/// value, otherwise its float value (zero when it has none).
pub open spec fn number_of_parts_spec(p: NumberPartsView) -> JsonNumberView {
    match p.as_i64 {
        Some(i) => JsonNumberView::Int(i),
        None => match p.as_f64 {
            Some(f) => JsonNumberView::Float(f),
            None => JsonNumberView::Float(zero_float()),
        },
    }
}

/// The library document of a read document: each number classified by
/// `number_of_parts_spec`, everything else kept.
pub open spec fn document_of_read(r: ReadJsonView) -> JsonView
    decreases r,
{
    match r {
        ReadJsonView::Null => JsonView::Null,
        ReadJsonView::Bool(b) => JsonView::Bool(b),
        ReadJsonView::Number(p) => JsonView::Number(number_of_parts_spec(p)),
        ReadJsonView::String(s) => JsonView::String(s),
        ReadJsonView::Array(items) => JsonView::Array(documents_of_read(items)),
        ReadJsonView::Object(entries) => JsonView::Object(entries_of_read(entries)),
    }
}

/// `document_of_read` of each item.
pub open spec fn documents_of_read(items: Seq<ReadJsonView>) -> Seq<JsonView>
    decreases items,
{
    Seq::new(items.len(), |i: int| if 0 <= i < items.len() { document_of_read(items[i]) } else { JsonView::Null })
}

/// `document_of_read` of each entry's value, keys kept.
pub open spec fn entries_of_read(entries: Seq<(Seq<char>, ReadJsonView)>) -> Seq<(Seq<char>, JsonView)>
    decreases entries,
{
    Seq::new(
        entries.len(),
        |i: int|
            if 0 <= i < entries.len() {
                (entries[i].0, document_of_read(entries[i].1))
            } else {
                (Seq::empty(), JsonView::Null)
            },
    )
}

/// Classifies a JSON number: an integer when it has an `i64` value,
/// otherwise its float value, or zero when it has none.
pub fn number_of_parts(p: &NumberParts) -> (r: JsonNumber)
    ensures
        r.view_of() == number_of_parts_spec(p.view_of()),
{
    match p.as_i64 {
        Some(i) => JsonNumber::Int(i),
        None => match &p.as_f64 {
            Some(f) => JsonNumber::Float(FloatRepr { bits: f.bits, text: f.text.clone() }),
            None => {
                let mut zero: Vec<char> = Vec::new();
                zero.push('0');
                assert(zero@ =~= seq!['0']);
                JsonNumber::Float(FloatRepr { bits: 0, text: chars_to_string(&zero) })
            },
        },
    }
}

/// Converts a read document into the library's model, classifying its
/// numbers with `number_of_parts`.
pub fn document_from_read(r: &ReadJson) -> (d: JsonValue)
    ensures
        d.view_of() == document_of_read(r.view_of()),
    decreases r,
{
    match r {
        ReadJson::Null => JsonValue::Null,
        ReadJson::Bool(b) => JsonValue::Bool(*b),
        ReadJson::Number(p) => JsonValue::Number(number_of_parts(p)),
        ReadJson::String(s) => JsonValue::String(s.clone()),
        ReadJson::Array(items) => read_array(items),
        ReadJson::Object(entries) => read_object(entries),
    }
}

fn read_array(items: &Vec<ReadJson>) -> (d: JsonValue)
    ensures
        d.view_of() == document_of_read(ReadJsonView::Array(read_items_view(items@))),
    decreases items,
{
    let ghost iv = read_items_view(items@);
    let n = items.len();
    let mut out: Vec<JsonValue> = Vec::new();
    for i in 0..n
        invariant
            n == items@.len(),
            iv == read_items_view(items@),
            out@.len() == i,
            forall|k: int| 0 <= k < i ==> (#[trigger] out@[k]).view_of() == document_of_read(iv[k]),
    {
        assert(iv[i as int] == items@[i as int].view_of());
        let d = document_from_read(&items[i]);
        out.push(d);
    }
    assert(items_view(out@) =~= documents_of_read(iv));
    JsonValue::Array(out)
}

fn read_object(entries: &Vec<(String, ReadJson)>) -> (d: JsonValue)
    ensures
        d.view_of() == document_of_read(ReadJsonView::Object(read_entries_view(entries@))),
    decreases entries,
{
    let ghost ev = read_entries_view(entries@);
    let n = entries.len();
    let mut out: Vec<(String, JsonValue)> = Vec::new();
    for i in 0..n
        invariant
            n == entries@.len(),
            ev == read_entries_view(entries@),
            out@.len() == i,
            forall|k: int| 0 <= k < i ==> (#[trigger] out@[k]).0@ == ev[k].0 && out@[k].1.view_of() == document_of_read(ev[k].1),
    {
        assert(ev[i as int] == (entries@[i as int].0@, entries@[i as int].1.view_of()));
        let d = document_from_read(&entries[i].1);
        out.push((entries[i].0.clone(), d));
    }
    assert(object_view(out@) =~= entries_of_read(ev));
    JsonValue::Object(out)
}

/// The document that `serde_json::from_str` reads from a JSON text, its
/// numbers given as `as_i64` and `as_f64` parts, or `None` when the text is
/// not JSON.
pub uninterp spec fn json_document(text: Seq<char>) -> Option<ReadJsonView>;

/// The optional mathematical form of a read document.
pub open spec fn read_opt_view(r: Option<ReadJson>) -> Option<ReadJsonView> {
    match r {
        Some(d) => Some(d.view_of()),
        None => None,
    }
}

/// The compact JSON text that `serde_json::to_string` writes for a
/// document, or `None` when a float of it has no JSON form.
pub uninterp spec fn json_text(j: JsonView) -> Option<Seq<char>>;

#[verifier::external_type_specification]
#[verifier::external_body]
pub struct ExSerdeJsonNumber(serde_json::Number);

/// The parts of a `serde_json` number: `as_i64`, and `as_f64` kept as
/// bits and decimal text.
#[verifier::external_body]
fn number_parts(n: serde_json::Number) -> NumberParts
{
    NumberParts {
        as_i64: n.as_i64(),
        as_f64: n.as_f64().map(|x| FloatRepr { bits: x.to_bits(), text: x.to_string() }),
    }
}

/// A library number as a `serde_json` number; a float is rebuilt from its
/// text (`None` when that is not a finite number).
#[verifier::external_body]
fn number_to_serde(n: &JsonNumber) -> Option<serde_json::Number>
{
    match n {
        JsonNumber::Int(i) => Some(serde_json::Number::from(*i)),
        JsonNumber::Float(f) => serde_json::Number::from_f64(f.text.parse().ok()?),
    }
}

/// A `serde_json` document as a read document, one variant for one.
#[verifier::external_body]
fn from_serde_value(v: serde_json::Value) -> ReadJson
{
    match v {
        serde_json::Value::Null => ReadJson::Null,
        serde_json::Value::Bool(b) => ReadJson::Bool(b),
        serde_json::Value::Number(n) => ReadJson::Number(number_parts(n)),
        serde_json::Value::String(s) => ReadJson::String(s),
        serde_json::Value::Array(a) => ReadJson::Array(a.into_iter().map(from_serde_value).collect()),
        serde_json::Value::Object(o) => ReadJson::Object(o.into_iter().map(|(k, v)| (k, from_serde_value(v))).collect()),
    }
}

/// A library document as a `serde_json` document, one variant for one
/// (`None` when a float of it has no JSON form).
#[verifier::external_body]
fn to_serde_value(j: &JsonValue) -> Option<serde_json::Value>
{
    Some(match j {
        JsonValue::Null => serde_json::Value::Null,
        JsonValue::Bool(b) => serde_json::Value::Bool(*b),
        JsonValue::Number(n) => serde_json::Value::Number(number_to_serde(n)?),
        JsonValue::String(s) => serde_json::Value::String(s.clone()),
        JsonValue::Array(a) => serde_json::Value::Array(a.iter().map(to_serde_value).collect::<Option<Vec<_>>>()?),
        JsonValue::Object(o) => serde_json::Value::Object(o.iter().map(|(k, v)| Some((k.clone(), to_serde_value(v)?))).collect::<Option<_>>()?),
    })
}

/// Whether every object of a document has distinct keys and every float
/// is finite.
pub open spec fn distinct_keys_finite_floats(j: JsonView) -> bool
    decreases j,
{
    match j {
        JsonView::Number(JsonNumberView::Float(f)) => float_is_finite(f.bits),
        JsonView::Array(items) => forall|i: int|
            0 <= i < items.len() ==> distinct_keys_finite_floats(#[trigger] items[i]),
        JsonView::Object(entries) => {
            &&& forall|a: int, b: int|
                0 <= a < b < entries.len() ==> #[trigger] entries[a].0 != #[trigger] entries[b].0
            &&& forall|i: int| 0 <= i < entries.len() ==> distinct_keys_finite_floats(#[trigger] entries[i].1)
        },
        _ => true,
    }
}

/// Whether a document has no `null` inside arrays or objects and only
/// non-empty arrays of at most `i64::MAX` items: the documents whose
/// script form holds all of them.
pub open spec fn no_nulls_or_empty_arrays(j: JsonView) -> bool
    decreases j,
{
    match j {
        JsonView::Array(items) => {
            &&& 0 < items.len() <= i64::MAX
            &&& forall|i: int| 0 <= i < items.len() ==> !(#[trigger] items[i] is Null)
            &&& forall|i: int| 0 <= i < items.len() ==> no_nulls_or_empty_arrays(#[trigger] items[i])
        },
        JsonView::Object(entries) => {
            &&& forall|i: int| 0 <= i < entries.len() ==> !(#[trigger] entries[i].1 is Null)
            &&& forall|i: int| 0 <= i < entries.len() ==> no_nulls_or_empty_arrays(#[trigger] entries[i].1)
        },
        _ => true,
    }
}

proof fn lemma_survives_round_trip(j: JsonView)
    requires
        distinct_keys_finite_floats(j),
        no_nulls_or_empty_arrays(j),
    ensures
        survives_round_trip(j),
    decreases j,
{
    match j {
        JsonView::Array(items) => {
            assert forall|i: int| 0 <= i < items.len() implies survives_round_trip(#[trigger] items[i]) by {
                lemma_survives_round_trip(items[i]);
            }
        },
        JsonView::Object(entries) => {
            assert forall|i: int| 0 <= i < entries.len() implies survives_round_trip(#[trigger] entries[i].1) by {
                lemma_survives_round_trip(entries[i].1);
            }
        },
        _ => {},
    }
}

/// Law: a parsed JSON document without `null` inside arrays or objects and
/// without empty arrays comes back unchanged when its script form is
/// converted back to JSON.
pub proof fn lemma_parsed_document_round_trip(j: JsonView)
    requires
        distinct_keys_finite_floats(j),
        no_nulls_or_empty_arrays(j),
    ensures
        json_of_script(script_of_json(j)) == Some(j),
{
    lemma_survives_round_trip(j);
    lemma_json_round_trip(j);
}

/// Parses JSON text into a document.
///
/// Trusted: calls `serde_json::from_str` into a `serde_json::Value` and
/// converts it one for one (`from_serde_value`), each number into its
/// `as_i64` and `as_f64` parts; the outcome is `json_document` of the text,
/// a function of the text alone. The contract also claims what
/// `serde_json` guarantees of every document it reads: object keys are
/// distinct (a `Map`), and a number's float value is finite (a number out
/// of range is a parse error), so the classified document has distinct
/// keys and finite floats.
#[verifier::external_body]
fn parse_json_text(text: &str) -> (r: Option<ReadJson>)
    ensures
        read_opt_view(r) == json_document(text@),
        r matches Some(d) ==> distinct_keys_finite_floats(document_of_read(d.view_of())),
{
    serde_json::from_str::<serde_json::Value>(text).ok().map(from_serde_value)
}

/// Writes a document as compact JSON text.
///
/// Trusted: converts the document one for one into a `serde_json::Value`
/// (`to_serde_value`) and calls `serde_json::to_string`; the outcome is
/// `json_text` of the document, a function of the document alone.
#[verifier::external_body]
fn write_json_text(j: &JsonValue) -> (r: Option<String>)
    ensures
        crate::url::opt_str_view(r) == json_text(j.view_of()),
{
    to_serde_value(j).and_then(|v| serde_json::to_string(&v).ok())
}

/// Parses JSON text into a script value: refused when the text is longer
/// than `MAX_INPUT_BYTES` bytes; text that is not JSON gives `nil`.
pub fn parse(value: &str) -> (r: Result<ScriptValue, JsonError>)
    ensures
        r is Err <==> value.len() > MAX_INPUT_BYTES,
        r matches Ok(s) ==> s.view_of() == match json_document(value@) {
            Some(d) => script_of_json(document_of_read(d)),
            None => ScriptView::Nil,
        },
        r matches Ok(s) ==> (json_document(value@) matches Some(d) ==> (no_nulls_or_empty_arrays(document_of_read(d))
            ==> json_of_script(s.view_of()) == Some(document_of_read(d)))),
{
    match check_input_len(value) {
        Err(e) => Err(e),
        Ok(()) => {
            let read = parse_json_text(value);
            let document = match &read {
                Some(d) => Some(document_from_read(d)),
                None => None,
            };
            proof {
                if let Some(d) = json_document(value@) {
                    if no_nulls_or_empty_arrays(document_of_read(d)) {
                        lemma_parsed_document_round_trip(document_of_read(d));
                    }
                }
            }
            Ok(document_to_script(document))
        },
    }
}

/// The JSON text of a script value, or `None` when the value has no JSON
/// form.
pub fn encode(value: &ScriptValue) -> (r: Option<String>)
    ensures
        crate::url::opt_str_view(r) == match json_of_script(value.view_of()) {
            Some(j) => json_text(j),
            None => None,
        },
{
    match lua_to_json(value) {
        Some(j) => write_json_text(&j),
        None => None,
    }
}

/// Converts a JSON document to its script form.
pub fn json_to_lua(j: &JsonValue) -> (r: ScriptValue)
    ensures
        r.view_of() == script_of_json(j.view_of()),
    decreases j,
{
    match j {
        JsonValue::Null => ScriptValue::Nil,
        JsonValue::Bool(b) => ScriptValue::Boolean(*b),
        JsonValue::Number(JsonNumber::Int(i)) => ScriptValue::Integer(*i),
        JsonValue::Number(JsonNumber::Float(f)) => ScriptValue::Number(FloatRepr { bits: f.bits, text: f.text.clone() }),
        JsonValue::String(s) => ScriptValue::String(slice_to_vec(s.as_str().as_bytes())),
        JsonValue::Array(items) => array_to_table(items),
        JsonValue::Object(entries) => object_to_table(entries),
    }
}

fn array_to_table(items: &Vec<JsonValue>) -> (r: ScriptValue)
    ensures
        r.view_of() == script_of_json(JsonView::Array(items_view(items@))),
    decreases items,
{
    let ghost iv = items_view(items@);
    let n = items.len();
    let mut out: Vec<(ScriptValue, ScriptValue)> = Vec::new();
    assert(entries_view(out@) =~= Seq::<(ScriptView, ScriptView)>::empty());
    for i in 0..n
        invariant
            n == items@.len(),
            iv == items_view(items@),
            entries_view(out@) == array_entries(iv, i as nat),
    {
        assert(iv[i as int] == items@[i as int].view_of());
        let v = json_to_lua(&items[i]);
        if let JsonValue::Null = &items[i] {
        } else {
            let ghost before = out@;
            let k = (i + 1) as i64;
            out.push((ScriptValue::Integer(k), v));
            assert(entries_view(out@) =~= entries_view(before).push(
                (ScriptView::Integer((i + 1) as i64), script_of_json(iv[i as int])),
            ));
        }
    }
    let mut lead: usize = 0;
    while lead < n && !matches!(&items[lead], JsonValue::Null)
        invariant
            n == items@.len(),
            iv == items_view(items@),
            lead <= n,
            first_null_from(iv, 0) == first_null_from(iv, lead as int),
        decreases n - lead,
    {
        assert(iv[lead as int] == items@[lead as int].view_of());
        lead += 1;
    }
    proof {
        if lead < n {
            assert(iv[lead as int] == items@[lead as int].view_of());
        }
    }
    ScriptValue::Table(out, lead)
}

fn object_to_table(entries: &Vec<(String, JsonValue)>) -> (r: ScriptValue)
    ensures
        r.view_of() == script_of_json(JsonView::Object(object_view(entries@))),
    decreases entries,
{
    let ghost ov = object_view(entries@);
    let n = entries.len();
    let mut out: Vec<(ScriptValue, ScriptValue)> = Vec::new();
    assert(entries_view(out@) =~= Seq::<(ScriptView, ScriptView)>::empty());
    for i in 0..n
        invariant
            n == entries@.len(),
            ov == object_view(entries@),
            entries_view(out@) == object_entries_script(ov, i as nat),
    {
        assert(ov[i as int] == (entries@[i as int].0@, entries@[i as int].1.view_of()));
        if let JsonValue::Null = &entries[i].1 {
        } else {
            let v = json_to_lua(&entries[i].1);
            let key = ScriptValue::String(slice_to_vec(entries[i].0.as_str().as_bytes()));
            let ghost before = out@;
            out.push((key, v));
            assert(entries_view(out@) =~= entries_view(before).push(
                (ScriptView::String(encode_utf8(ov[i as int].0)), script_of_json(ov[i as int].1)),
            ));
        }
    }
    ScriptValue::Table(out, 0)
}


/// The integer a table key holds (zero for any other key).
pub open spec fn integer_key(k: ScriptView) -> int {
    match k {
        ScriptView::Integer(i) => i as int,
        _ => 0,
    }
}

proof fn lemma_array_entries_positions(items: Seq<JsonView>, n: nat)
    requires
        n <= items.len() <= i64::MAX,
    ensures
        forall|i: int| 0 <= i < array_entries(items, n).len() ==> {
            let e = #[trigger] array_entries(items, n)[i];
            &&& e.0 is Integer
            &&& 1 <= integer_key(e.0) <= n
            &&& !(items[integer_key(e.0) - 1] is Null)
            &&& e.1 == script_of_json(items[integer_key(e.0) - 1])
        },
        forall|i: int, i2: int|
            0 <= i < i2 < array_entries(items, n).len() ==> integer_key(#[trigger] array_entries(items, n)[i].0)
                < integer_key(#[trigger] array_entries(items, n)[i2].0),
        forall|k: int|
            0 <= k < n && !(#[trigger] items[k] is Null) ==> exists|i: int|
                0 <= i < array_entries(items, n).len() && #[trigger] array_entries(items, n)[i] == (
                    ScriptView::Integer((k + 1) as i64),
                    script_of_json(items[k]),
                ),
    decreases n,
{
    if n > 0 {
        let m = (n - 1) as nat;
        lemma_array_entries_positions(items, m);
        let prev = array_entries(items, m);
        let cur = array_entries(items, n);
        if !(items[n - 1] is Null) {
            assert(cur == prev.push((ScriptView::Integer(n as i64), script_of_json(items[n - 1]))));
            assert forall|i: int| 0 <= i < cur.len() implies {
                let e = #[trigger] cur[i];
                &&& e.0 is Integer
                &&& 1 <= integer_key(e.0) <= n
                &&& !(items[integer_key(e.0) - 1] is Null)
                &&& e.1 == script_of_json(items[integer_key(e.0) - 1])
            } by {
                if i < prev.len() {
                    assert(cur[i] == prev[i]);
                }
            }
            assert forall|i: int, i2: int| 0 <= i < i2 < cur.len() implies integer_key(#[trigger] cur[i].0)
                < integer_key(#[trigger] cur[i2].0) by {
                assert(cur[i] == prev[i]);
                if i2 < prev.len() {
                    assert(cur[i2] == prev[i2]);
                }
            }
            assert forall|k: int| 0 <= k < n && !(#[trigger] items[k] is Null) implies exists|i: int|
                0 <= i < cur.len() && #[trigger] cur[i] == (ScriptView::Integer((k + 1) as i64), script_of_json(items[k])) by {
                if k < m {
                    let i = choose|i: int|
                        0 <= i < prev.len() && #[trigger] prev[i] == (ScriptView::Integer((k + 1) as i64), script_of_json(items[k]));
                    assert(cur[i] == prev[i]);
                } else {
                    assert(cur[prev.len() as int] == (ScriptView::Integer((k + 1) as i64), script_of_json(items[k])));
                }
            }
        } else {
            assert(cur == prev);
        }
    }
}

/// Law: converting a JSON array to a script value keeps each item under
/// its position: the item at position `k`, when it is not `null`, is held
/// under the integer key `k + 1` and nowhere else, a `null` item leaves its
/// key absent, and every entry of the table is such an item.
pub proof fn lemma_array_items_keep_positions(items: Seq<JsonView>)
    requires
        items.len() <= i64::MAX,
    ensures
        script_of_json(JsonView::Array(items)) matches ScriptView::Table(entries, _) && {
            &&& forall|k: int, i: int|
                0 <= k < items.len() && 0 <= i < entries.len() && #[trigger] entries[i].0 == ScriptView::Integer(
                    (k + 1) as i64,
                ) ==> !(#[trigger] items[k] is Null) && entries[i].1 == script_of_json(items[k])
            &&& forall|k: int|
                0 <= k < items.len() && !(#[trigger] items[k] is Null) ==> exists|i: int|
                    0 <= i < entries.len() && #[trigger] entries[i] == (ScriptView::Integer((k + 1) as i64), script_of_json(items[k]))
            &&& forall|i: int, i2: int|
                0 <= i < i2 < entries.len() ==> #[trigger] entries[i].0 != #[trigger] entries[i2].0
            &&& forall|i: int|
                0 <= i < entries.len() ==> (#[trigger] entries[i]).0 is Integer && 1 <= integer_key(entries[i].0) <= items.len()
        },
{
    lemma_array_entries_positions(items, items.len());
    let entries = array_entries(items, items.len());
    assert forall|k: int, i: int|
        0 <= k < items.len() && 0 <= i < entries.len() && #[trigger] entries[i].0 == ScriptView::Integer((k + 1) as i64)
        implies !(#[trigger] items[k] is Null) && entries[i].1 == script_of_json(items[k]) by {
        assert(integer_key(entries[i].0) == k + 1);
    }
    assert forall|i: int, i2: int| 0 <= i < i2 < entries.len() implies #[trigger] entries[i].0 != #[trigger] entries[i2].0 by {
        assert(integer_key(entries[i].0) < integer_key(entries[i2].0));
    }
}


/// Whether a JSON object has an entry under `key`.
pub open spec fn object_has_key(obj: Seq<(Seq<char>, JsonView)>, key: Seq<char>) -> bool {
    exists|m: int| 0 <= m < obj.len() && (#[trigger] obj[m]).0 == key
}

proof fn lemma_entry_index_found(entries: Seq<(Seq<char>, JsonView)>, key: Seq<char>, i: int)
    requires
        0 <= i,
    ensures
        entry_index(entries, key, i) matches Some(j) ==> i <= j < entries.len() && entries[j].0 == key,
    decreases entries.len() - i,
{
    if 0 <= i < entries.len() && entries[i].0 != key {
        lemma_entry_index_found(entries, key, i + 1);
    }
}

proof fn lemma_entries_insert_keys(prev: Seq<(Seq<char>, JsonView)>, key: Seq<char>, value: JsonView, t: Seq<char>)
    requires
        t == key || object_has_key(prev, t),
    ensures
        object_has_key(entries_insert(prev, key, value), t),
{
    let next = entries_insert(prev, key, value);
    lemma_entry_index_found(prev, key, 0);
    if t == key {
        match entry_index(prev, key, 0) {
            Some(j) => {
                assert(next[j].0 == t);
            },
            None => {
                assert(next[prev.len() as int].0 == t);
            },
        }
    } else {
        let m = choose|m: int| 0 <= m < prev.len() && (#[trigger] prev[m]).0 == t;
        assert(next[m].0 == t);
    }
}

proof fn lemma_object_entries_keys(entries: Seq<(ScriptView, ScriptView)>, n: nat)
    requires
        n <= entries.len(),
    ensures
        object_entries(entries, n) matches Some(obj) ==> forall|i: int|
            0 <= i < n && (#[trigger] key_text(entries[i].0)) is Text ==> object_has_key(obj, key_text(entries[i].0)->Text_0),
    decreases n,
{
    if n > 0 {
        let m1 = (n - 1) as nat;
        lemma_object_entries_keys(entries, m1);
        if let Some(obj) = object_entries(entries, n) {
            let prev = object_entries(entries, m1)->0;
            assert forall|i: int| 0 <= i < n && (#[trigger] key_text(entries[i].0)) is Text implies object_has_key(obj, key_text(entries[i].0)->Text_0) by {
                let t = key_text(entries[i].0)->Text_0;
                match key_text(entries[n - 1].0) {
                    KeyText::Text(key) => {
                        let v = json_of_script(entries[n - 1].1)->0;
                        assert(obj == entries_insert(prev, key, v));
                        lemma_entries_insert_keys(prev, key, v, t);
                    },
                    _ => {
                        assert(obj == prev);
                    },
                }
            }
        }
    }
}

proof fn lemma_array_items_shape(entries: Seq<(ScriptView, ScriptView)>, n: nat)
    ensures
        array_items(entries, n) matches Some(items) ==> items.len() == n && forall|k: int|
            0 <= k < n ==> Some(#[trigger] items[k]) == array_item(entries, (k + 1) as nat),
    decreases n,
{
    if n > 0 {
        lemma_array_items_shape(entries, (n - 1) as nat);
    }
}

proof fn lemma_integer_key_index_at(entries: Seq<(ScriptView, ScriptView)>, k: int, s: int, i: int)
    requires
        0 <= s <= i < entries.len(),
        entries[i].0 == ScriptView::Integer(k as i64),
        k == k as i64,
        forall|a: int, b: int| 0 <= a < b < entries.len() ==> #[trigger] entries[a].0 != #[trigger] entries[b].0,
    ensures
        integer_key_index(entries, k, s) == Some(i),
    decreases i - s,
{
    if s < i {
        assert(entries[s].0 != entries[i].0);
        lemma_integer_key_index_at(entries, k, s + 1, i);
    }
}

/// Law: encoding a table as JSON loses no entry. A table becomes an array
/// only when all its keys are integers and its number of entries equals its
/// reported length, which is then the array's length; item `k` is the
/// value under key `k + 1`, so (with distinct keys, as a table has) an
/// entry under key `k + 1` gives item `k`. Any other table becomes an
/// object that holds the text of every string or number key of the table.
pub proof fn lemma_table_encoding_keeps_entries(entries: Seq<(ScriptView, ScriptView)>, border: nat)
    requires
        entries.len() <= i64::MAX,
    ensures
        json_of_script(ScriptView::Table(entries, border)) matches Some(JsonView::Array(items)) ==> {
            &&& entries.len() == border
            &&& items.len() == border
            &&& forall|i: int| 0 <= i < entries.len() ==> (#[trigger] entries[i]).0 is Integer
            &&& (forall|a: int, b: int| 0 <= a < b < entries.len() ==> #[trigger] entries[a].0 != #[trigger] entries[b].0)
                ==> forall|i: int, k: int|
                0 <= i < entries.len() && 0 <= k < border && #[trigger] entries[i].0 == ScriptView::Integer((k + 1) as i64)
                    ==> json_of_script(entries[i].1) == Some(#[trigger] items[k])
        },
        json_of_script(ScriptView::Table(entries, border)) matches Some(JsonView::Object(obj)) ==> forall|i: int|
            0 <= i < entries.len() && (#[trigger] key_text(entries[i].0)) is Text ==> object_has_key(obj, key_text(entries[i].0)->Text_0),
{
    let t = ScriptView::Table(entries, border);
    if is_array_table(entries, border) {
        lemma_array_items_shape(entries, border);
        match array_items(entries, border) {
            Some(items) => assert(json_of_script(t) == Some(JsonView::Array(items))),
            None => assert(json_of_script(t) is None),
        }
        if let Some(items) = array_items(entries, border) {
            if forall|a: int, b: int| 0 <= a < b < entries.len() ==> #[trigger] entries[a].0 != #[trigger] entries[b].0 {
                assert forall|i: int, k: int|
                    0 <= i < entries.len() && 0 <= k < border && #[trigger] entries[i].0 == ScriptView::Integer((k + 1) as i64)
                    implies json_of_script(entries[i].1) == Some(#[trigger] items[k]) by {
                    lemma_integer_key_index_at(entries, k + 1, 0, i);
                    assert(Some(items[k]) == array_item(entries, (k + 1) as nat));
                }
            }
        }
    } else {
        lemma_object_entries_keys(entries, entries.len());
        match object_entries(entries, entries.len()) {
            Some(obj) => {
                assert(json_of_script(t) == Some(JsonView::Object(obj)));
                assert forall|i: int| 0 <= i < entries.len() && (#[trigger] key_text(entries[i].0)) is Text implies object_has_key(obj, key_text(entries[i].0)->Text_0) by {
                    assert(0 <= i < entries.len() && key_text(entries[i].0) is Text);
                }
            },
            None => assert(json_of_script(t) is None),
        }
    }
}

} // verus!
