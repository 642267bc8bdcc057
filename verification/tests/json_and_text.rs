use vellum::json::{Json, JsonNumber, json_eq, ju64_value};
use vellum::jtext::json_text;
use vellum::jmap::{object_put, update_state};
use vellum::text::{parse_i64, parse_u32, parse_u64, trim_str, u64_text};
use vellum::paths::{join_path_str, trim_leading_str};
use vellum::collate::{lex_less, sort_strings};

fn s(x: &str) -> Json {
    Json::Str(x.to_string())
}

fn n(x: u64) -> Json {
    Json::Number(JsonNumber { text: x.to_string(), signed: Some(x as i64), unsigned: Some(x) })
}

fn obj(es: Vec<(&str, Json)>) -> Json {
    Json::Object(es.into_iter().map(|(k, v)| (k.to_string(), v)).collect())
}

#[test]
fn trim_drops_outer_whitespace() {
    assert_eq!(trim_str("  a b \t\n"), "a b");
    assert_eq!(trim_str("   "), "");
}

#[test]
fn parses_unsigned_and_signed_numbers() {
    let c: Vec<char> = "42".chars().collect();
    assert_eq!(parse_u64(&c), Some(42));
    assert_eq!(parse_u32(&c), Some(42));
    let big: Vec<char> = "4294967296".chars().collect();
    assert_eq!(parse_u32(&big), None);
    let neg: Vec<char> = "-17".chars().collect();
    assert_eq!(parse_i64(&neg), Some(-17));
    let bad: Vec<char> = "1x".chars().collect();
    assert_eq!(parse_u64(&bad), None);
}

#[test]
fn writes_decimal_text() {
    assert_eq!(u64_text(0), "0");
    assert_eq!(u64_text(18446744073709551615), "18446744073709551615");
}

#[test]
fn joins_paths_like_path_join() {
    assert_eq!(join_path_str("/music", "a/b"), "/music/a/b");
    assert_eq!(join_path_str("/music/", "a"), "/music/a");
    assert_eq!(join_path_str("/music", "/abs"), "/abs");
    assert_eq!(join_path_str("", "x"), "x");
    assert_eq!(trim_leading_str("//a/b", '/'), "a/b");
}

#[test]
fn orders_strings_by_character() {
    assert!(lex_less("a", "b"));
    assert!(lex_less("ab", "abc"));
    assert!(!lex_less("b", "a"));
    assert!(!lex_less("a", "a"));
    let v = sort_strings(vec!["pear".to_string(), "Apple".to_string(), "apple".to_string()]);
    assert_eq!(v, vec!["Apple".to_string(), "apple".to_string(), "pear".to_string()]);
}

#[test]
fn writes_compact_json_text() {
    let v = obj(vec![("a", n(1)), ("b", Json::Array(vec![s("x\"y"), Json::Null, Json::Bool(true)]))]);
    assert_eq!(json_text(&v), "{\"a\":1,\"b\":[\"x\\\"y\",null,true]}");
}

#[test]
fn reads_values_by_key() {
    let v = obj(vec![("a", n(7)), ("b", s("t"))]);
    assert_eq!(v.get("a").and_then(|x| x.as_u64()), Some(7));
    assert_eq!(v.get("b").and_then(|x| x.as_str()).map(|x| x.as_str()), Some("t"));
    assert!(v.get("c").is_none());
    assert!(json_eq(&ju64_value(7), &n(7)));
    assert!(!json_eq(&n(7), &n(8)));
}

#[test]
fn object_put_keeps_key_order() {
    let mut es: Vec<(String, Json)> = vec![("a".to_string(), n(1)), ("c".to_string(), n(3))];
    object_put(&mut es, "b".to_string(), n(2));
    object_put(&mut es, "c".to_string(), n(30));
    object_put(&mut es, "d".to_string(), n(4));
    let keys: Vec<&str> = es.iter().map(|e| e.0.as_str()).collect();
    assert_eq!(keys, vec!["a", "b", "c", "d"]);
    assert_eq!(json_text(&Json::Object(es)), "{\"a\":1,\"b\":2,\"c\":30,\"d\":4}");
}

#[test]
fn object_get_after_put_on_concrete_values() {
    let mut es: Vec<(String, Json)> = vec![("k".to_string(), s("old"))];
    object_put(&mut es, "k".to_string(), s("new"));
    let o = Json::Object(es);
    assert_eq!(o.get("k").and_then(|x| x.as_str()).map(|x| x.as_str()), Some("new"));
}

#[test]
fn update_state_merges_payload_into_saved_state() {
    let ui = obj(vec![("activeTab", s("home")), ("sortKey", s("default"))]);
    let payload = obj(vec![("sortKey", s("date")), ("groupKey", s("genre"))]);
    let r = update_state(ui, &payload);
    assert_eq!(json_text(&r), "{\"activeTab\":\"home\",\"groupKey\":\"genre\",\"sortKey\":\"date\"}");
    let not_obj = update_state(obj(vec![("a", n(1))]), &s("x"));
    assert_eq!(json_text(&not_obj), "{\"a\":1}");
}
