use beamng_editor::config::{extract_parts, validate_json, vehicle_key_from_path, VehicleConfig};
use beamng_editor::json::JsonValue;
use beamng_editor::json_util::{parse_beamng_json, parse_strict_json, repair_missing_commas, validate_beamng_json};

fn s(x: &str) -> JsonValue {
    JsonValue::Str(x.to_string())
}

fn obj(entries: Vec<(&str, JsonValue)>) -> JsonValue {
    JsonValue::Object(entries.into_iter().map(|(k, v)| (k.to_string(), v)).collect())
}

fn sample() -> VehicleConfig {
    let raw = obj(vec![
        ("format", JsonValue::Number("2".to_string())),
        ("model", s("pickup")),
        ("parts", obj(vec![("mainEngine", s("pickup_engine_v8")), ("pickup_body", s("body_a")), ("n", JsonValue::Null)])),
    ]);
    VehicleConfig::load("vehicles/pickup/base.pc".to_string(), raw)
}

#[test]
fn repairs_missing_commas() {
    let text = "{\n  \"a\": \"1\"\n  \"b\": \"2\"\n}";
    assert_eq!(repair_missing_commas(text), "{\n  \"a\": \"1\",\n  \"b\": \"2\"\n}");
    let ok = "{\n  \"a\": \"1\",\n  \"b\": \"2\"\n}";
    assert_eq!(repair_missing_commas(ok), ok);
    assert_eq!(repair_missing_commas("x\r\ny\n"), "x\ny");
}

#[test]
fn picks_the_json_dialect() {
    let strict = parse_beamng_json("{\"a\": 1, \"b\": [true, null, \"x\"]}").unwrap();
    let expected = obj(vec![
        ("a", JsonValue::Number("1".to_string())),
        ("b", JsonValue::Array(vec![JsonValue::Bool(true), JsonValue::Null, s("x")])),
    ]);
    assert!(strict.same_as(&expected));
    let json5 = parse_beamng_json("{\"a\": 1,}").unwrap();
    assert!(json5.same_as(&obj(vec![("a", JsonValue::Number("1".to_string()))])));
    let repaired = parse_beamng_json("{\n  \"a\": \"1\"\n  \"b\": \"2\"\n}").unwrap();
    assert!(repaired.same_as(&obj(vec![("a", s("1")), ("b", s("2"))])));
    match parse_beamng_json("{ this is not json") {
        Err(e) => assert!(e.message.starts_with("JSON error: ")),
        Ok(v) => panic!("unexpected {:?}", v),
    }
    assert!(validate_beamng_json("[1, 2, 3]").is_ok());
    assert!(validate_beamng_json("]").is_err());
}

#[test]
fn strict_json_refuses_json5() {
    let v = parse_strict_json("{\"slots\": [\"a\"]}").unwrap();
    assert!(v.same_as(&obj(vec![("slots", JsonValue::Array(vec![s("a")]))])));
    assert!(parse_strict_json("{\"a\": 1,}").is_err());
    assert!(!parse_strict_json("").unwrap_err().message.is_empty());
}

#[test]
fn parts_are_the_string_entries() {
    let c = sample();
    assert_eq!(c.parts.len(), 2);
    assert_eq!(c.parts.get("mainEngine").map(|x| x.as_str()), Some("pickup_engine_v8"));
    assert_eq!(c.parts.get("n"), None);
    let none = extract_parts(&obj(vec![("parts", s("oops"))]));
    assert_eq!(none.len(), 0);
}

#[test]
fn engine_slot_prefers_known_names() {
    let c = sample();
    assert_eq!(c.engine_slot(), Some(("mainEngine".to_string(), "pickup_engine_v8".to_string())));
    let other = VehicleConfig::load(
        "x.pc".to_string(),
        obj(vec![("parts", obj(vec![("a_body", s("b")), ("myEngineSlot2", s("e"))]))]),
    );
    assert_eq!(other.engine_slot(), Some(("myEngineSlot2".to_string(), "e".to_string())));
}

#[test]
fn set_part_updates_map_and_document() {
    let mut c = sample();
    c.set_part("mainEngine", "v6");
    c.set_part("new_slot", "p");
    assert_eq!(c.parts.get("mainEngine").map(|x| x.as_str()), Some("v6"));
    let parts = c.raw.get("parts").unwrap();
    assert_eq!(parts.get_str("mainEngine").map(|x| x.as_str()), Some("v6"));
    assert_eq!(parts.get_str("new_slot").map(|x| x.as_str()), Some("p"));
    // a document without a parts object gets one with every assignment
    let mut bare = VehicleConfig::load("y.pc".to_string(), obj(vec![("model", s("x"))]));
    bare.set_part("b", "2");
    bare.set_part("a", "1");
    match bare.raw.get("parts").unwrap() {
        JsonValue::Object(es) => {
            assert_eq!(es.len(), 2);
        }
        _ => panic!("parts must be an object"),
    }
}

#[test]
fn diff_lists_changed_slots_in_order() {
    let a = sample();
    let mut b = sample();
    b.set_part("pickup_body", "body_b");
    b.set_part("extra", "x");
    let d = a.diff_summary(&b);
    assert_eq!(
        d,
        vec![
            ("extra".to_string(), String::new(), "x".to_string()),
            ("pickup_body".to_string(), "body_a".to_string(), "body_b".to_string()),
        ]
    );
}

#[test]
fn diff_with_itself_is_empty() {
    let a = sample();
    assert!(a.diff_summary(&a.copy()).is_empty());
}

#[test]
fn validate_json_rejects_non_object_parts() {
    assert!(validate_json(&sample().raw).is_ok());
    let e = validate_json(&obj(vec![("parts", s("x"))])).unwrap_err();
    assert_eq!(e.message, "'parts' must be a JSON object");
}

#[test]
fn key_from_path() {
    assert_eq!(vehicle_key_from_path("a/b/pickup_v8.pc"), "pickup_v8");
    assert_eq!(vehicle_key_from_path("/"), "unknown");
}

#[test]
fn reload_takes_changed_documents_only() {
    let mut c = sample();
    assert!(!c.reload_if_changed(sample()));
    let mut changed = sample();
    changed.set_part("mainEngine", "other");
    assert!(c.reload_if_changed(changed));
    assert_eq!(c.parts.get("mainEngine").map(|x| x.as_str()), Some("other"));
}

#[test]
fn json_equality_is_structural() {
    let a = obj(vec![("x", JsonValue::Array(vec![JsonValue::Bool(true), JsonValue::Null]))]);
    let b = obj(vec![("x", JsonValue::Array(vec![JsonValue::Bool(true), JsonValue::Null]))]);
    let c = obj(vec![("x", JsonValue::Array(vec![JsonValue::Bool(false)]))]);
    assert!(a.same_as(&b));
    assert!(!a.same_as(&c));
    assert!(a.deep_clone().same_as(&a));
}

#[test]
fn repairing_twice_changes_nothing() {
    let text = "{\n  \"a\": \"1\"  \n  \"b\": \"2\"\n  \"c\": \"3\"\n}";
    let once = repair_missing_commas(text);
    assert_eq!(once, "{\n  \"a\": \"1\",\n  \"b\": \"2\",\n  \"c\": \"3\"\n}");
    assert_eq!(repair_missing_commas(&once), once);
    assert_eq!(once.lines().count(), text.lines().count());
}

#[test]
fn pretty_prints_documents() {
    let doc = obj(vec![("b", JsonValue::Number("2".to_string())), ("a", s("x"))]);
    let text = beamng_editor::json_util::to_pretty_json(&doc).unwrap();
    assert_eq!(text, "{\n  \"a\": \"x\",\n  \"b\": 2\n}");
    let bad = obj(vec![("n", JsonValue::Number("abc".to_string()))]);
    assert!(beamng_editor::json_util::to_pretty_json(&bad).is_err());
    let config = VehicleConfig::load("v/x.pc".to_string(), obj(vec![("model", s("x"))]));
    assert_eq!(config.to_pretty_json().unwrap(), "{\n  \"model\": \"x\"\n}");
}
