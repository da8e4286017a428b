use base64::prelude::{Engine, BASE64_STANDARD};
use event_parser::normalize::{normalize, normalize_all};
use event_parser::{dyn_sol_to_json, DecodedValue};
use serde_json::Value;

fn word(n: u64) -> [u8; 32] {
    let mut w = [0u8; 32];
    w[24..].copy_from_slice(&n.to_be_bytes());
    w
}

fn text(s: &str) -> Value {
    Value::String(s.to_string())
}

fn member(key: &str, value: Value) -> (String, Value) {
    (key.to_string(), value)
}

fn object(members: Vec<(String, Value)>) -> Value {
    Value::Object(members.into_iter().collect())
}

fn written(value: &Value) -> String {
    serde_json::to_string(value).unwrap()
}

fn vitalik() -> [u8; 20] {
    [
        0xd8, 0xda, 0x6b, 0xf2, 0x69, 0x64, 0xaf, 0x9d, 0x7e, 0xed, 0x9e, 0x03, 0xe5, 0x34, 0x15,
        0xd3, 0x7a, 0xa9, 0x60, 0x45,
    ]
}

#[test]
fn bool_stays_bool() {
    assert_eq!(dyn_sol_to_json(DecodedValue::Bool(true)), Value::Bool(true));
    assert_eq!(dyn_sol_to_json(DecodedValue::Bool(false)), Value::Bool(false));
}

#[test]
fn uint_zero_is_the_digit_zero() {
    assert_eq!(dyn_sol_to_json(DecodedValue::Uint([0u8; 32], 256)), text("0"));
    assert_eq!(dyn_sol_to_json(DecodedValue::Uint([0u8; 32], 8)), text("0"));
}

#[test]
fn uint_max_of_256_bits_is_exact() {
    assert_eq!(
        dyn_sol_to_json(DecodedValue::Uint([0xffu8; 32], 256)),
        text("115792089237316195423570985008687907853269984665640564039457584007913129639935")
    );
}

#[test]
fn uint_max_of_narrow_widths_is_exact() {
    assert_eq!(dyn_sol_to_json(DecodedValue::Uint(word(255), 8)), text("255"));
    assert_eq!(dyn_sol_to_json(DecodedValue::Uint(word(u64::MAX), 64)), text("18446744073709551615"));
}

#[test]
fn uint_has_no_leading_zeros() {
    assert_eq!(dyn_sol_to_json(DecodedValue::Uint(word(1_000_000_000_000_000_000), 256)), text("1000000000000000000"));
    assert_eq!(dyn_sol_to_json(DecodedValue::Uint(word(10), 256)), text("10"));
    assert_eq!(dyn_sol_to_json(DecodedValue::Uint(word(9), 256)), text("9"));
}

#[test]
fn int_minus_one() {
    assert_eq!(dyn_sol_to_json(DecodedValue::Int([0xffu8; 32], 256)), text("-1"));
    assert_eq!(dyn_sol_to_json(DecodedValue::Int([0xffu8; 32], 8)), text("-1"));
}

#[test]
fn int_extremes() {
    let mut min = [0u8; 32];
    min[0] = 0x80;
    assert_eq!(
        dyn_sol_to_json(DecodedValue::Int(min, 256)),
        text("-57896044618658097711785492504343953926634992332820282019728792003956564819968")
    );
    let mut max = [0xffu8; 32];
    max[0] = 0x7f;
    assert_eq!(
        dyn_sol_to_json(DecodedValue::Int(max, 256)),
        text("57896044618658097711785492504343953926634992332820282019728792003956564819967")
    );
}

#[test]
fn int_positive_and_zero() {
    assert_eq!(dyn_sol_to_json(DecodedValue::Int(word(42), 256)), text("42"));
    assert_eq!(dyn_sol_to_json(DecodedValue::Int([0u8; 32], 256)), text("0"));
    let mut minus_256 = [0xffu8; 32];
    minus_256[31] = 0x00;
    assert_eq!(dyn_sol_to_json(DecodedValue::Int(minus_256, 16)), text("-256"));
}

#[test]
fn fixed_bytes_encode_the_bytes_of_the_array() {
    let mut w = [0u8; 32];
    w[..4].copy_from_slice(&[0x01, 0x02, 0x03, 0x04]);
    let json = dyn_sol_to_json(DecodedValue::FixedBytes(w, 4));
    assert_eq!(json, text("AQIDBA=="));
    let Value::String(encoded) = json else { panic!("not a string") };
    assert_eq!(BASE64_STANDARD.decode(encoded).unwrap(), vec![1, 2, 3, 4]);
    w[..4].copy_from_slice(&[0xde, 0xad, 0xbe, 0xef]);
    assert_eq!(dyn_sol_to_json(DecodedValue::FixedBytes(w, 4)), text("3q2+7w=="));
    assert_eq!(dyn_sol_to_json(DecodedValue::FixedBytes(w, 1)), text("3g=="));
    assert_eq!(dyn_sol_to_json(DecodedValue::FixedBytes(w, 0)), text(""));
}

#[test]
fn fixed_bytes_of_a_whole_word() {
    let mut w = [0u8; 32];
    w[..4].copy_from_slice(&[0xde, 0xad, 0xbe, 0xef]);
    let whole = text("3q2+7wAAAAAAAAAAAAAAAAAAAAAAAAAAAAAAAAAAAAA=");
    assert_eq!(dyn_sol_to_json(DecodedValue::FixedBytes(w, 32)), whole);
    assert_eq!(dyn_sol_to_json(DecodedValue::FixedBytes(w, 33)), whole);
    assert_eq!(dyn_sol_to_json(DecodedValue::FixedBytes(w, usize::MAX)), whole);
    let mut counting = [0u8; 32];
    for (i, b) in counting.iter_mut().enumerate() {
        *b = i as u8;
    }
    assert_eq!(
        dyn_sol_to_json(DecodedValue::FixedBytes(counting, 32)),
        text("AAECAwQFBgcICQoLDA0ODxAREhMUFRYXGBkaGxwdHh8=")
    );
    assert_eq!(dyn_sol_to_json(DecodedValue::FixedBytes(counting, 31)), text("AAECAwQFBgcICQoLDA0ODxAREhMUFRYXGBkaGxwdHg=="));
}

#[test]
fn address_is_checksummed() {
    assert_eq!(
        dyn_sol_to_json(DecodedValue::Address(vitalik())),
        text("0xd8dA6BF26964aF9D7eEd9e03E53415D37aA96045")
    );
    assert_eq!(
        dyn_sol_to_json(DecodedValue::Address([0u8; 20])),
        text("0x0000000000000000000000000000000000000000")
    );
}

#[test]
fn function_is_prefixed_lower_hex() {
    let mut f = [0u8; 24];
    f[..20].copy_from_slice(&vitalik());
    f[20..].copy_from_slice(&[0xa9, 0x05, 0x9c, 0xbb]);
    assert_eq!(
        dyn_sol_to_json(DecodedValue::Function(f)),
        text("0xd8da6bf26964af9d7eed9e03e53415d37aa96045a9059cbb")
    );
}

#[test]
fn bytes_round_trip() {
    let json = dyn_sol_to_json(DecodedValue::Bytes(vec![0x01, 0x02, 0x03]));
    assert_eq!(json, text("AQID"));
    let Value::String(encoded) = json else { panic!("not a string") };
    assert_eq!(BASE64_STANDARD.decode(encoded).unwrap(), vec![0x01, 0x02, 0x03]);
}

#[test]
fn bytes_are_padded() {
    assert_eq!(dyn_sol_to_json(DecodedValue::Bytes(vec![])), text(""));
    assert_eq!(dyn_sol_to_json(DecodedValue::Bytes(vec![1])), text("AQ=="));
    assert_eq!(dyn_sol_to_json(DecodedValue::Bytes(vec![1, 2])), text("AQI="));
    assert_eq!(dyn_sol_to_json(DecodedValue::Bytes(vec![0xfb, 0xff, 0xbe])), text("+/++"));
    assert_eq!(dyn_sol_to_json(DecodedValue::Bytes(b"hello world".to_vec())), text("aGVsbG8gd29ybGQ="));
}

#[test]
fn string_is_unchanged() {
    assert_eq!(dyn_sol_to_json(DecodedValue::String("transfer/channel-0".to_string())), text("transfer/channel-0"));
    assert_eq!(dyn_sol_to_json(DecodedValue::String(String::new())), text(""));
    assert_eq!(dyn_sol_to_json(DecodedValue::String("héllo \"q\"".to_string())), text("héllo \"q\""));
}

#[test]
fn arrays_and_tuples_become_arrays_in_order() {
    let items = || vec![DecodedValue::Uint(word(1), 256), DecodedValue::Bool(false), DecodedValue::Uint(word(3), 256)];
    let expected = Value::Array(vec![text("1"), Value::Bool(false), text("3")]);
    assert_eq!(dyn_sol_to_json(DecodedValue::Array(items())), expected);
    assert_eq!(dyn_sol_to_json(DecodedValue::FixedArray(items())), expected);
    assert_eq!(dyn_sol_to_json(DecodedValue::Tuple(items())), expected);
    assert_eq!(dyn_sol_to_json(DecodedValue::Array(vec![])), Value::Array(vec![]));
}

#[test]
fn nesting_is_preserved() {
    let value = DecodedValue::Array(vec![
        DecodedValue::Tuple(vec![DecodedValue::Bool(true), DecodedValue::Array(vec![DecodedValue::Int([0xffu8; 32], 8)])]),
        DecodedValue::CustomStruct {
            name: "Height".to_string(),
            prop_names: vec!["revision".to_string()],
            tuple: vec![DecodedValue::Uint(word(7), 64)],
        },
    ]);
    let expected = Value::Array(vec![
        Value::Array(vec![Value::Bool(true), Value::Array(vec![text("-1")])]),
        object(vec![member("revision", text("7"))]),
    ]);
    assert_eq!(dyn_sol_to_json(value), expected);
}

#[test]
fn struct_fields_are_aligned_with_values() {
    let value = DecodedValue::CustomStruct {
        name: "Pair".to_string(),
        prop_names: vec!["a".to_string(), "b".to_string()],
        tuple: vec![DecodedValue::Bool(true), DecodedValue::String("x".to_string())],
    };
    let json = dyn_sol_to_json(value);
    assert_eq!(json, object(vec![member("a", Value::Bool(true)), member("b", text("x"))]));
    assert_eq!(written(&json), r#"{"a":true,"b":"x"}"#);
}

#[test]
fn struct_name_is_dropped() {
    let make = |name: &str| DecodedValue::CustomStruct {
        name: name.to_string(),
        prop_names: vec!["a".to_string()],
        tuple: vec![DecodedValue::Bool(true)],
    };
    assert_eq!(dyn_sol_to_json(make("One")), dyn_sol_to_json(make("Other")));
}

#[test]
fn struct_with_a_repeated_field_name_keeps_one_key() {
    let value = DecodedValue::CustomStruct {
        name: "S".to_string(),
        prop_names: vec!["a".to_string(), "b".to_string(), "a".to_string()],
        tuple: vec![DecodedValue::Uint(word(1), 8), DecodedValue::Uint(word(2), 8), DecodedValue::Uint(word(3), 8)],
    };
    let json = dyn_sol_to_json(value);
    assert_eq!(json, object(vec![member("a", text("3")), member("b", text("2"))]));
    assert_eq!(written(&json), r#"{"a":"3","b":"2"}"#);
}

#[test]
fn struct_pairs_stop_at_the_shorter_list() {
    let value = DecodedValue::CustomStruct {
        name: "S".to_string(),
        prop_names: vec!["a".to_string(), "b".to_string(), "c".to_string()],
        tuple: vec![DecodedValue::Bool(true), DecodedValue::Bool(false)],
    };
    assert_eq!(
        dyn_sol_to_json(value),
        object(vec![member("a", Value::Bool(true)), member("b", Value::Bool(false))])
    );
    let value = DecodedValue::CustomStruct {
        name: "S".to_string(),
        prop_names: vec!["a".to_string()],
        tuple: vec![DecodedValue::Bool(true), DecodedValue::Bool(false)],
    };
    assert_eq!(dyn_sol_to_json(value), object(vec![member("a", Value::Bool(true))]));
    let value = DecodedValue::CustomStruct { name: "S".to_string(), prop_names: vec![], tuple: vec![] };
    assert_eq!(dyn_sol_to_json(value), object(vec![]));
}

#[test]
fn every_variant_has_its_shape() {
    let values = vec![
        DecodedValue::Bool(true),
        DecodedValue::Int(word(1), 256),
        DecodedValue::Uint(word(1), 256),
        DecodedValue::FixedBytes(word(1), 32),
        DecodedValue::Address([1u8; 20]),
        DecodedValue::Function([1u8; 24]),
        DecodedValue::Bytes(vec![1]),
        DecodedValue::String("s".to_string()),
        DecodedValue::Array(vec![DecodedValue::Bool(true)]),
        DecodedValue::FixedArray(vec![DecodedValue::Bool(true)]),
        DecodedValue::Tuple(vec![DecodedValue::Bool(true)]),
        DecodedValue::CustomStruct {
            name: "S".to_string(),
            prop_names: vec!["a".to_string()],
            tuple: vec![DecodedValue::Bool(true)],
        },
    ];
    let shapes: Vec<&str> = normalize_all(&values)
        .iter()
        .map(|json| match json {
            Value::Bool(_) => "bool",
            Value::String(_) => "string",
            Value::Array(_) => "array",
            Value::Object(_) => "object",
            _ => "other",
        })
        .collect();
    assert_eq!(
        shapes,
        vec![
            "bool", "string", "string", "string", "string", "string", "string", "string", "array",
            "array", "array", "object"
        ]
    );
}

#[test]
fn normalizing_in_place_agrees_with_consuming() {
    let value = || DecodedValue::Tuple(vec![DecodedValue::Address(vitalik()), DecodedValue::Bytes(vec![9, 9])]);
    assert_eq!(normalize(&value()), dyn_sol_to_json(value()));
    assert_eq!(normalize_all(&vec![value(), value()]), vec![normalize(&value()), normalize(&value())]);
}
