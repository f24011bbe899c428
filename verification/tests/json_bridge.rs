use luakit::json::{
    check_input_len, document_from_read, document_to_script, encode, json_to_lua, lua_to_json,
    number_of_parts, parse, FloatRepr, JsonError, JsonNumber, JsonValue, NumberParts, ReadJson,
    ScriptValue, MAX_INPUT_BYTES,
};

fn float(f: f64) -> FloatRepr {
    FloatRepr { bits: f.to_bits(), text: f.to_string() }
}

fn field<'a>(table: &'a ScriptValue, key: &str) -> Option<&'a ScriptValue> {
    match table {
        ScriptValue::Table(entries, _) => entries.iter().find_map(|(k, v)| match k {
            ScriptValue::String(b) if b.as_slice() == key.as_bytes() => Some(v),
            _ => None,
        }),
        _ => None,
    }
}

#[test]
fn nullable_module_matches_lua_plugin_contract() {
    let parsed = parse(r#"{"name":"wall"}"#).unwrap();
    let name = match field(&parsed, "name") {
        Some(ScriptValue::String(b)) => String::from_utf8(b.clone()).unwrap(),
        other => panic!("unexpected {other:?}"),
    };
    let list = ScriptValue::Table(
        vec![
            (ScriptValue::Integer(1), ScriptValue::Integer(1)),
            (ScriptValue::Integer(2), ScriptValue::Integer(2)),
        ],
        2,
    );
    let encoded = encode(&list).unwrap();
    assert_eq!(name, "wall");
    assert_eq!(encoded, "[1,2]");

    let parsed = parse("{").unwrap();
    let encoded = encode(&ScriptValue::Other);
    assert!(matches!(parsed, ScriptValue::Nil));
    assert!(encoded.is_none());
}

#[test]
fn parse_rejects_oversized_input() {
    let over = "a".repeat(MAX_INPUT_BYTES + 1);
    assert!(parse(&over).is_err());
}

#[test]
fn decode_rejects_oversized_input() {
    let over = "a".repeat(MAX_INPUT_BYTES + 1);
    assert!(matches!(check_input_len(&over), Err(JsonError::InputTooLarge)));
    assert!(check_input_len(&"a".repeat(MAX_INPUT_BYTES)).is_ok());
}

#[test]
fn tables_become_objects_unless_they_are_sequences() {
    let mixed = ScriptValue::Table(
        vec![
            (ScriptValue::Integer(1), ScriptValue::Boolean(true)),
            (ScriptValue::String(b"k".to_vec()), ScriptValue::Nil),
            (ScriptValue::Number(float(1.5)), ScriptValue::Integer(-3)),
            (ScriptValue::Boolean(true), ScriptValue::Other),
        ],
        1,
    );
    assert_eq!(encode(&mixed).unwrap(), r#"{"1":true,"1.5":-3,"k":null}"#);
    assert_eq!(encode(&ScriptValue::Table(vec![], 0)).unwrap(), "{}");
    let holes = ScriptValue::Table(
        vec![
            (ScriptValue::Integer(1), ScriptValue::Integer(10)),
            (ScriptValue::Integer(3), ScriptValue::Integer(30)),
        ],
        2,
    );
    assert_eq!(encode(&holes).unwrap(), "[10,null]");
    let replaced = ScriptValue::Table(
        vec![
            (ScriptValue::Integer(7), ScriptValue::Integer(1)),
            (ScriptValue::String(b"7".to_vec()), ScriptValue::Integer(2)),
        ],
        0,
    );
    assert_eq!(encode(&replaced).unwrap(), r#"{"7":2}"#);
}

#[test]
fn values_without_json_form_fail() {
    assert!(encode(&ScriptValue::Number(float(f64::NAN))).is_none());
    assert!(encode(&ScriptValue::Number(float(f64::INFINITY))).is_none());
    assert!(encode(&ScriptValue::String(vec![0xff])).is_none());
    let nested = ScriptValue::Table(vec![(ScriptValue::String(b"f".to_vec()), ScriptValue::Other)], 0);
    assert!(encode(&nested).is_none());
    let bad_key = ScriptValue::Table(vec![(ScriptValue::String(vec![0xfe]), ScriptValue::Integer(1))], 0);
    assert!(encode(&bad_key).is_none());
}

#[test]
fn json_round_trips_through_script_values() {
    let text = r#"{"a":[1,2.5,"x"],"b":{"c":true},"d":-7}"#;
    let script = parse(text).unwrap();
    assert_eq!(encode(&script).unwrap(), text);
    let doc = lua_to_json(&script).unwrap();
    assert_eq!(encode(&json_to_lua(&doc)).unwrap(), text);
}

#[test]
fn parse_reads_numbers_and_rejects_non_json() {
    assert!(matches!(parse("42").unwrap(), ScriptValue::Integer(42)));
    match parse("2.5").unwrap() {
        ScriptValue::Number(f) => {
            assert_eq!(f.bits, 2.5f64.to_bits());
            assert_eq!(f.text, "2.5");
        }
        other => panic!("unexpected {other:?}"),
    }
    assert!(matches!(parse("{").unwrap(), ScriptValue::Nil));
    assert!(matches!(parse("null").unwrap(), ScriptValue::Nil));
    assert_eq!(encode(&parse("\"h\\u00e9\"").unwrap()).unwrap(), "\"hé\"");
}

#[test]
fn document_to_script_maps_missing_document_to_nil() {
    assert!(matches!(document_to_script(None), ScriptValue::Nil));
    let doc = JsonValue::Array(vec![JsonValue::Number(JsonNumber::Int(5))]);
    match document_to_script(Some(doc)) {
        ScriptValue::Table(entries, border) => {
            assert_eq!(border, 1);
            assert!(matches!(entries[0], (ScriptValue::Integer(1), ScriptValue::Integer(5))));
        }
        other => panic!("unexpected {other:?}"),
    }
}

#[test]
fn json_arrays_report_their_leading_length() {
    match parse("[1,null,3]").unwrap() {
        ScriptValue::Table(entries, border) => {
            assert_eq!(border, 1);
            assert_eq!(entries.len(), 2);
        }
        other => panic!("unexpected {other:?}"),
    }
    match parse(r#"{"a":null,"b":1}"#).unwrap() {
        ScriptValue::Table(entries, border) => {
            assert_eq!(border, 0);
            assert_eq!(entries.len(), 1);
        }
        other => panic!("unexpected {other:?}"),
    }
}

#[test]
fn numbers_are_integers_when_they_fit_i64() {
    let int = number_of_parts(&NumberParts { as_i64: Some(42), as_f64: Some(float(42.0)) });
    assert!(matches!(int, JsonNumber::Int(42)));
    let big = u64::MAX as f64;
    match number_of_parts(&NumberParts { as_i64: None, as_f64: Some(float(big)) }) {
        JsonNumber::Float(f) => assert_eq!(f.bits, big.to_bits()),
        other => panic!("unexpected {other:?}"),
    }
    match number_of_parts(&NumberParts { as_i64: None, as_f64: None }) {
        JsonNumber::Float(f) => {
            assert_eq!(f.bits, 0);
            assert_eq!(f.text, "0");
        }
        other => panic!("unexpected {other:?}"),
    }
    assert!(matches!(parse("-1").unwrap(), ScriptValue::Integer(-1)));
    match parse("18446744073709551615").unwrap() {
        ScriptValue::Number(f) => assert_eq!(f.bits, big.to_bits()),
        other => panic!("unexpected {other:?}"),
    }
}

#[test]
fn read_documents_keep_their_shape() {
    let read = ReadJson::Object(vec![
        ("a".to_string(), ReadJson::Array(vec![ReadJson::Null, ReadJson::Bool(true)])),
        ("b".to_string(), ReadJson::Number(NumberParts { as_i64: Some(7), as_f64: Some(float(7.0)) })),
    ]);
    match document_from_read(&read) {
        JsonValue::Object(entries) => {
            assert_eq!(entries.len(), 2);
            assert_eq!(entries[0].0, "a");
            assert!(matches!(&entries[0].1, JsonValue::Array(items) if items.len() == 2));
            assert!(matches!(entries[1].1, JsonValue::Number(JsonNumber::Int(7))));
        }
        other => panic!("unexpected {other:?}"),
    }
}
