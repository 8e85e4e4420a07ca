use pkw::json::{all_contained, any_shared, contains_value, json_eq, JsonNumber, JsonValue};
use pkw::pointer::{JsonPointer, PointerError};
use jsonptr::assign::Assign;
use jsonptr::resolve::Resolve;

fn doc(text: &str) -> JsonValue {
    from_serde(&serde_json::from_str::<serde_json::Value>(text).unwrap())
}

fn from_serde(v: &serde_json::Value) -> JsonValue {
    match v {
        serde_json::Value::Null => JsonValue::Null,
        serde_json::Value::Bool(b) => JsonValue::Bool(*b),
        serde_json::Value::Number(n) => {
            if let Some(u) = n.as_u64() {
                JsonValue::Number(JsonNumber::PosInt(u))
            } else if let Some(i) = n.as_i64() {
                JsonValue::Number(JsonNumber::NegInt(i))
            } else {
                let f = n.as_f64().unwrap();
                let f = if f == 0.0 { 0.0 } else { f };
                JsonValue::Number(JsonNumber::Float(f.to_bits()))
            }
        }
        serde_json::Value::String(s) => JsonValue::String(s.clone()),
        serde_json::Value::Array(a) => JsonValue::Array(a.iter().map(from_serde).collect()),
        serde_json::Value::Object(o) => {
            JsonValue::Object(o.iter().map(|(k, v)| (k.clone(), from_serde(v))).collect())
        }
    }
}

fn to_serde(v: &JsonValue) -> serde_json::Value {
    match v {
        JsonValue::Null => serde_json::Value::Null,
        JsonValue::Bool(b) => serde_json::Value::Bool(*b),
        JsonValue::Number(JsonNumber::PosInt(u)) => serde_json::Value::from(*u),
        JsonValue::Number(JsonNumber::NegInt(i)) => serde_json::Value::from(*i),
        JsonValue::Number(JsonNumber::Float(b)) => serde_json::Value::from(f64::from_bits(*b)),
        JsonValue::String(s) => serde_json::Value::String(s.clone()),
        JsonValue::Array(a) => serde_json::Value::Array(a.iter().map(to_serde).collect()),
        JsonValue::Object(o) => serde_json::Value::Object(
            o.iter().map(|(k, v)| (k.clone(), to_serde(v))).collect(),
        ),
    }
}

fn same(a: &JsonValue, text: &str) -> bool {
    json_eq(a, &doc(text))
}

#[test]
fn parse_accepts_rfc6901_pointers() {
    assert_eq!(JsonPointer::parse("").unwrap().tokens, Vec::<String>::new());
    assert_eq!(JsonPointer::parse("/").unwrap().tokens, vec!["".to_string()]);
    assert_eq!(
        JsonPointer::parse("/spec/replicas").unwrap().tokens,
        vec!["spec".to_string(), "replicas".to_string()]
    );
    assert_eq!(
        JsonPointer::parse("/a~1b/c~0d").unwrap().tokens,
        vec!["a/b".to_string(), "c~d".to_string()]
    );
}

#[test]
fn parse_rejects_malformed_pointers() {
    assert_eq!(JsonPointer::parse("spec").unwrap_err(), PointerError::Malformed);
    assert_eq!(JsonPointer::parse("/a~2").unwrap_err(), PointerError::Malformed);
    assert_eq!(JsonPointer::parse("/a~").unwrap_err(), PointerError::Malformed);
}

#[test]
fn resolve_walks_objects_and_arrays() {
    let d = doc(r#"{"spec":{"containers":[{"name":"a"},{"name":"b"}]},"x":null}"#);
    let p = JsonPointer::parse("/spec/containers/1/name").unwrap();
    assert!(same(p.resolve(&d).unwrap(), r#""b""#));
    let root = JsonPointer::parse("").unwrap();
    assert!(json_eq(root.resolve(&d).unwrap(), &d));
    assert!(same(JsonPointer::parse("/x").unwrap().resolve(&d).unwrap(), "null"));
}

#[test]
fn resolve_refuses_bad_indices_and_missing_members() {
    let d = doc(r#"{"a":[10,20]}"#);
    for p in ["/a/2", "/a/-", "/a/01", "/a/x", "/a/", "/b", "/a/0/c", "/a/99999999999999999999999"] {
        assert!(JsonPointer::parse(p).unwrap().resolve(&d).is_none(), "{p}");
    }
    assert!(same(JsonPointer::parse("/a/0").unwrap().resolve(&d).unwrap(), "10"));
}

#[test]
fn assign_replaces_and_creates() {
    let mut d = doc(r#"{"a":{"b":1},"l":[1,2]}"#);
    JsonPointer::parse("/a/b").unwrap().assign(&mut d, doc("2")).unwrap();
    JsonPointer::parse("/a/c/d").unwrap().assign(&mut d, doc("true")).unwrap();
    JsonPointer::parse("/l/-").unwrap().assign(&mut d, doc("3")).unwrap();
    JsonPointer::parse("/l/3/0").unwrap().assign(&mut d, doc(r#""z""#)).unwrap();
    JsonPointer::parse("/n/0/k").unwrap().assign(&mut d, doc("null")).unwrap();
    assert!(same(
        &d,
        r#"{"a":{"b":2,"c":{"d":true}},"l":[1,2,3,["z"]],"n":[{"k":null}]}"#
    ));
}

#[test]
fn assign_replaces_scalars_on_the_path() {
    let mut d = doc(r#"{"a":5}"#);
    JsonPointer::parse("/a/b").unwrap().assign(&mut d, doc("1")).unwrap();
    assert!(same(&d, r#"{"a":{"b":1}}"#));
    let mut root = doc("7");
    JsonPointer::parse("").unwrap().assign(&mut root, doc("[]")).unwrap();
    assert!(same(&root, "[]"));
}

#[test]
fn assign_refuses_bad_indices_and_keeps_the_document() {
    let mut d = doc(r#"{"l":[1,2]}"#);
    let before = doc(r#"{"l":[1,2]}"#);
    for p in ["/l/5", "/l/x", "/l/01", "/l/0/x/9"] {
        let r = JsonPointer::parse(p).unwrap().assign(&mut d, doc("0"));
        if p == "/l/0/x/9" {
            // a scalar on the path is replaced, whatever the rest of the path
            assert!(r.is_ok());
            d = doc(r#"{"l":[1,2]}"#);
        } else {
            assert_eq!(r, Err(PointerError::BadIndex), "{p}");
            assert!(json_eq(&d, &before));
        }
    }
}

#[test]
fn read_after_write_gives_the_written_value() {
    let mut d = doc(r#"{"metadata":{"labels":{"app":"x"}},"spec":{"ports":[{"port":80}]}}"#);
    for (p, v) in [
        ("/metadata/labels/team", r#""infra""#),
        ("/spec/ports/0/port", "443"),
        ("/spec/ports/1", r#"{"port":8443}"#),
        ("/status/conditions/0", r#"{"type":"Ready"}"#),
    ] {
        let ptr = JsonPointer::parse(p).unwrap();
        ptr.assign(&mut d, doc(v)).unwrap();
        assert!(same(ptr.resolve(&d).unwrap(), v), "{p}");
    }
}

#[test]
fn write_through_dash_cannot_be_read_back() {
    let mut d = doc("{}");
    let p = JsonPointer::parse("/a/-").unwrap();
    p.assign(&mut d, doc("1")).unwrap();
    assert!(same(&d, r#"{"a":[1]}"#));
    assert!(p.resolve(&d).is_none());
}

#[test]
fn resolve_and_assign_agree_with_jsonptr() {
    let text = r#"{"a":{"b":[1,{"c":"d"}],"e":null},"f":"g","h":[[0]]}"#;
    let pointers = [
        "", "/a", "/a/b", "/a/b/0", "/a/b/1/c", "/a/b/2", "/a/b/-", "/a/e", "/a/e/x", "/f/0",
        "/h/0/0", "/h/00", "/x/y", "/a/b/1/z/0", "/a/b/3/q", "/h/0/1",
    ];
    for p in pointers {
        let ours = JsonPointer::parse(p).unwrap();
        let theirs = jsonptr::PointerBuf::parse(p).unwrap();
        let sv: serde_json::Value = serde_json::from_str(text).unwrap();
        let d = from_serde(&sv);
        match (ours.resolve(&d), sv.resolve(&theirs)) {
            (Some(x), Ok(y)) => assert_eq!(to_serde(x), *y, "{p}"),
            (None, Err(_)) => {}
            (a, b) => panic!("resolve {p}: {:?} vs {:?}", a.is_some(), b.is_ok()),
        }
        let mut d2 = from_serde(&sv);
        let mut sv2 = sv.clone();
        let r1 = ours.assign(&mut d2, doc(r#"{"new":1}"#));
        let r2 = sv2.assign(&theirs, serde_json::from_str::<serde_json::Value>(r#"{"new":1}"#).unwrap());
        assert_eq!(r1.is_ok(), r2.is_ok(), "assign {p}");
        assert_eq!(to_serde(&d2), sv2, "assign {p}");
    }
}

#[test]
fn equality_distinguishes_number_kinds() {
    assert!(same(&doc("1"), "1"));
    assert!(!same(&doc("1"), "1.0"));
    assert!(same(&doc("-0.0"), "0.0"));
    assert!(!same(&doc(r#"{"a":1}"#), r#"{"a":2}"#));
    assert!(same(&doc(r#"{"b":1,"a":2}"#), r#"{"a":2,"b":1}"#));
    assert!(!same(&doc("[1,2]"), "[2,1]"));
}

#[test]
fn array_relations() {
    let a = match doc(r#"[1,"x",{"k":[]}]"#) {
        JsonValue::Array(v) => v,
        _ => unreachable!(),
    };
    let b = match doc(r#"[{"k":[]},1]"#) {
        JsonValue::Array(v) => v,
        _ => unreachable!(),
    };
    assert!(contains_value(&a, &doc(r#""x""#)));
    assert!(!contains_value(&b, &doc(r#""x""#)));
    assert!(all_contained(&b, &a));
    assert!(!all_contained(&a, &b));
    assert!(any_shared(&a, &b));
    assert!(!any_shared(&a, &Vec::new()));
    assert!(all_contained(&Vec::new(), &a));
}

#[test]
fn duplicate_copies_the_document() {
    let d = doc(r#"{"a":[1,{"b":"c"}],"d":-3}"#);
    assert!(json_eq(&d.duplicate(), &d));
    assert!(d.is_array() == false && d.is_null() == false);
    assert!(doc("null").is_null() && doc("[]").is_array());
}
