use pkw::json::{JsonNumber, JsonValue};
use pkw::review::{admission, review_parts, ReviewError};
use pkw::text::text_contains;
use pkw::types::MatchCombiner;
use pkw::validation::{combine_with, evaluate_expression, is_evaluable, is_float_free};

fn doc(text: &str) -> JsonValue {
    from_serde(&serde_json::from_str::<serde_json::Value>(text).unwrap())
}

fn from_serde(v: &serde_json::Value) -> JsonValue {
    match v {
        serde_json::Value::Null => JsonValue::Null,
        serde_json::Value::Bool(b) => JsonValue::Bool(*b),
        serde_json::Value::Number(n) => match (n.as_u64(), n.as_i64()) {
            (Some(u), _) => JsonValue::Number(JsonNumber::PosInt(u)),
            (None, Some(i)) => JsonValue::Number(JsonNumber::NegInt(i)),
            _ => JsonValue::Number(JsonNumber::Float(n.as_f64().unwrap().to_bits())),
        },
        serde_json::Value::String(s) => JsonValue::String(s.clone()),
        serde_json::Value::Array(a) => JsonValue::Array(a.iter().map(from_serde).collect()),
        serde_json::Value::Object(o) => {
            JsonValue::Object(o.iter().map(|(k, v)| (k.clone(), from_serde(v))).collect())
        }
    }
}

#[test]
fn reviews_are_read() {
    let review = doc(r#"{"request":{"uid":"1","kind":{"group":"","version":"v1","kind":"Pod"},
        "object":{"metadata":{"name":"p"}}}}"#);
    let (kind, object) = review_parts(&review).unwrap();
    assert_eq!(kind, "Pod");
    assert!(pkw::json::json_eq(&object, &doc(r#"{"metadata":{"name":"p"}}"#)));
    assert_eq!(review_parts(&doc(r#"{"response":{}}"#)).unwrap_err(), ReviewError::MissingRequest);
    assert_eq!(review_parts(&doc(r#"{"request":{"object":{}}}"#)).unwrap_err(), ReviewError::MissingKind);
    assert_eq!(review_parts(&doc(r#"{"request":{"kind":{"kind":3},"object":{}}}"#)).unwrap_err(), ReviewError::MissingKind);
    assert_eq!(review_parts(&doc(r#"{"request":{"kind":{"kind":"Pod"}}}"#)).unwrap_err(), ReviewError::MissingObject);
    let (_, object) = review_parts(&doc(r#"{"request":{"kind":{"kind":"Pod"},"object":null}}"#)).unwrap();
    assert!(matches!(object, JsonValue::Null));
}

#[test]
fn admission_allows_or_refuses_by_verdict() {
    assert_eq!(admission("pkw", true), None);
    assert_eq!(admission("pkw", false), Some("fail json path validation/mutation on pkw".to_string()));
}

#[test]
fn expressions_that_can_panic_are_recognised() {
    assert!(is_evaluable("v1 && !v2"));
    assert!(!is_evaluable("str::substring(\"é\", 0, 1) == \"\""));
    assert!(!is_evaluable("shl(1, 64) == 0"));
    assert!(!is_evaluable("shr(1, 64) == 0"));
    assert!(!is_evaluable("math::abs(-1) == 1"));
    // names inside string literals or longer names are no calls
    assert!(is_evaluable("\"shl\" == \"shl\" && v1"));
    assert!(is_evaluable("\"a\\\"shl\" != \"\" || v1"));
    assert!(is_evaluable("my_shl || vshr"));
    assert!(!is_evaluable("(shl(1, 2)) == 4"));
    assert!(!is_evaluable("\"\" == \"\" && shr(1, 2) == 0"));
    // comments are refused outright
    assert!(!is_evaluable("v1 /* note */"));
    assert!(!is_evaluable("v1 // note"));
    assert!(is_evaluable("4 / 2 == 2"));
    assert!(MatchCombiner::Any.is_combinable());
    assert!(!MatchCombiner::BooleanExpression("shl(1, 2) == 4".to_string()).is_combinable());
    assert!(text_contains("abcabd", "abd"));
    assert!(!text_contains("ab", "abc"));
    assert!(text_contains("x", ""));
}

#[test]
fn combining_with_an_outcome() {
    let e = MatchCombiner::BooleanExpression("v1".to_string());
    assert!(combine_with(&e, &vec![false], Some(true)));
    assert!(!combine_with(&e, &vec![true], Some(false)));
    assert!(!combine_with(&e, &vec![true], None));
    assert!(combine_with(&MatchCombiner::Any, &vec![true], None));
    assert!(!combine_with(&MatchCombiner::All, &vec![true, false], Some(true)));
}

#[test]
fn expressions_evaluate_over_the_verdicts() {
    assert_eq!(evaluate_expression("v1 && v2", &vec![true, true]), Some(true));
    assert_eq!(evaluate_expression("v1 && v2", &vec![true, false]), Some(false));
    assert_eq!(evaluate_expression("v3", &vec![true, false]), None);
    assert_eq!(evaluate_expression("1 + 1", &vec![]), None);
    assert!(is_float_free("v1 && 2.5 * 2.0 == 5.0"));
    assert!(!is_float_free("math::sin(0.0) == 0.0"));
    assert!(!is_float_free("2 ^ 2 == 4"));
}
