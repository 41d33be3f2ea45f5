use powchain::canonical_chars;
use serde_json::Number;
use serde_json::Value;

fn canonical_string(id: u64, timestamp: i64, previous_hash: &str, data: &str, nonce: u64) -> String {
    canonical_chars(id, timestamp, previous_hash, data, nonce)
        .into_iter()
        .collect()
}

#[test]
fn canonical_form_exact() {
    let got = canonical_string(1, 123, "abc", "d", 23);
    assert_eq!(
        got,
        "{\"data\":\"d\",\"id\":1,\"nonce\":23,\"previous_hash\":\"abc\",\"timestamp\":123}"
    );
}

#[test]
fn canonical_form_distinguishes_field_boundaries() {
    // "data=1, nonce=23" and "data=12, nonce=3" must not collide.
    let a = canonical_string(0, 0, "p", "1", 23);
    let b = canonical_string(0, 0, "p", "12", 3);
    assert_ne!(a, b);
}

#[test]
fn canonical_form_negative_timestamp() {
    let got = canonical_string(0, -5, "", "", 0);
    assert_eq!(
        got,
        "{\"data\":\"\",\"id\":0,\"nonce\":0,\"previous_hash\":\"\",\"timestamp\":-5}"
    );
}

#[test]
fn canonical_form_extreme_integers() {
    let got = canonical_string(u64::MAX, i64::MIN, "", "", u64::MAX);
    assert_eq!(
        got,
        "{\"data\":\"\",\"id\":18446744073709551615,\"nonce\":18446744073709551615,\
         \"previous_hash\":\"\",\"timestamp\":-9223372036854775808}"
    );
}

#[test]
fn canonical_form_escapes_strings() {
    let got = canonical_string(0, 0, "a\\b", "q\"\n\t\u{3}", 0);
    assert_eq!(
        got,
        "{\"data\":\"q\\\"\\n\\t\\u0003\",\"id\":0,\"nonce\":0,\
         \"previous_hash\":\"a\\\\b\",\"timestamp\":0}"
    );
}

#[test]
fn canonical_form_matches_json_serializer() {
    let data = "payload \"quoted\" with \\ and \n and \u{1f} and ünïcode";
    let prev = "0fa2c3";
    let mut m = serde_json::Map::new();
    m.insert("data".to_string(), Value::String(data.to_string()));
    m.insert("id".to_string(), Value::Number(Number::from(7u64)));
    m.insert("nonce".to_string(), Value::Number(Number::from(99u64)));
    m.insert("previous_hash".to_string(), Value::String(prev.to_string()));
    m.insert("timestamp".to_string(), Value::Number(Number::from(-12i64)));
    let expected = Value::Object(m).to_string();
    let got = canonical_string(7, -12, prev, data, 99);
    assert_eq!(got, expected);
}
