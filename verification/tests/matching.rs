use pkw::json::{json_eq, JsonNumber, JsonValue};
use pkw::mutation::{mutate, MutationError};
use pkw::pointer::JsonPointer;
use pkw::types::{
    compare, ConfigError, Contains, Fetched, K8SResource, Match, MatchCombiner, MatchError,
    MatchValue, Matches, TypeHelper, VecExt,
};
use pkw::validation::{combine, validate};

fn doc(text: &str) -> JsonValue {
    from_serde(&serde_json::from_str::<serde_json::Value>(text).unwrap())
}

fn from_serde(v: &serde_json::Value) -> JsonValue {
    match v {
        serde_json::Value::Null => JsonValue::Null,
        serde_json::Value::Bool(b) => JsonValue::Bool(*b),
        serde_json::Value::Number(n) => {
            if let Some(u) = n.as_u64() {
                JsonValue::Number(JsonNumber::PosInt(u))
            } else if let Some(i) = n.as_i64() {
                JsonValue::Number(JsonNumber::NegInt(i))
            } else {
                JsonValue::Number(JsonNumber::Float(n.as_f64().unwrap().to_bits()))
            }
        }
        serde_json::Value::String(s) => JsonValue::String(s.clone()),
        serde_json::Value::Array(a) => JsonValue::Array(a.iter().map(from_serde).collect()),
        serde_json::Value::Object(o) => {
            JsonValue::Object(o.iter().map(|(k, v)| (k.clone(), from_serde(v))).collect())
        }
    }
}

fn ptr(p: &str) -> JsonPointer {
    JsonPointer::parse(p).unwrap()
}

fn check(path: &str, value: Option<MatchValue>, contains: Contains) -> Match {
    Match {
        json_path: ptr(path),
        kinds: vec!["Pod".to_string()],
        value,
        contains,
        value_to_be: None,
    }
}

fn literal(text: &str) -> Option<MatchValue> {
    Some(MatchValue::Value { value: doc(text) })
}

fn pointer_value(path: &str, resource: Option<&str>, ignore: bool) -> Option<MatchValue> {
    Some(MatchValue::JsonPath {
        resource: resource.map(|r| K8SResource::from_str(r).unwrap()),
        ignore_resource_not_exist: ignore,
        json_path: ptr(path),
    })
}

const POD: &str = r#"{"metadata":{"name":"p","labels":{"app":"web","tier":"front"}},
  "spec":{"tags":["a","b","c"],"replicas":3,"mirror":3,"empty":null,"one":"b"}}"#;

#[test]
fn resource_names_parse() {
    let r = K8SResource::from_str("ConfigMap:default/settings").unwrap();
    assert_eq!((r.kind.as_str(), r.namespace.as_deref(), r.name.as_str()), ("ConfigMap", Some("default"), "settings"));
    let r = K8SResource::from_str("Namespace:kube-system").unwrap();
    assert_eq!((r.kind.as_str(), r.namespace.as_deref(), r.name.as_str()), ("Namespace", None, "kube-system"));
    let r = K8SResource::from_str("A:b/c/d").unwrap();
    assert_eq!((r.namespace.as_deref(), r.name.as_str()), (Some("b"), "c/d"));
    let r = K8SResource::from_str(":").unwrap();
    assert_eq!((r.kind.as_str(), r.namespace.as_deref(), r.name.as_str()), ("", None, ""));
    assert_eq!(K8SResource::from_str("ConfigMap").unwrap_err(), ConfigError::ResourceWithoutKind);
}

#[test]
fn comparison_keywords_ignore_case() {
    assert_eq!(Contains::keyword(""), Some(Contains::Equal));
    assert_eq!(Contains::keyword("equal"), Some(Contains::Equal));
    assert_eq!(Contains::keyword("Contain"), Some(Contains::Contain));
    assert_eq!(Contains::keyword("INTERSECT"), Some(Contains::Intersect));
    assert_eq!(Contains::keyword("subset"), None);
    assert_eq!(Contains::from_str("intersect"), Contains::Intersect);
}

#[test]
fn combiners_parse() {
    assert!(matches!(MatchCombiner::from_str("").unwrap(), MatchCombiner::All));
    assert!(matches!(MatchCombiner::from_str("all").unwrap(), MatchCombiner::All));
    assert!(matches!(MatchCombiner::from_str("Any").unwrap(), MatchCombiner::Any));
    match MatchCombiner::from_str("v1 && !v2").unwrap() {
        MatchCombiner::BooleanExpression(e) => assert_eq!(e, "v1 && !v2"),
        _ => panic!(),
    }
    assert_eq!(MatchCombiner::from_str("(v1").unwrap_err(), ConfigError::BadExpression);
}

#[test]
fn compare_covers_every_kind_of_comparison() {
    let arr = doc(r#"["a","b","c"]"#);
    assert_eq!(compare(Contains::Equal, false, &doc(r#"["a","b","c"]"#), &arr), Ok(true));
    // two arrays are equal when they hold the same elements
    assert_eq!(compare(Contains::Equal, false, &doc(r#"["c","b","a"]"#), &arr), Ok(true));
    assert_eq!(compare(Contains::Equal, false, &doc(r#"["c","b","a","a"]"#), &arr), Ok(true));
    assert_eq!(compare(Contains::Equal, false, &doc(r#"["c","b"]"#), &arr), Ok(false));
    assert_eq!(compare(Contains::Equal, true, &doc(r#"["b","c","a"]"#), &arr), Ok(true));
    assert_eq!(compare(Contains::Intersect, false, &doc(r#"["x","c"]"#), &arr), Ok(true));
    assert_eq!(compare(Contains::Intersect, false, &doc(r#"["x"]"#), &arr), Ok(false));
    assert_eq!(compare(Contains::Intersect, false, &doc(r#""a""#), &arr), Err(MatchError::NotBothLists));
    assert_eq!(compare(Contains::Contain, false, &doc(r#"["c","a"]"#), &arr), Ok(true));
    assert_eq!(compare(Contains::Contain, false, &doc(r#"["a","b","c","d"]"#), &arr), Ok(true));
    assert_eq!(compare(Contains::Contain, false, &doc(r#"["a","d"]"#), &arr), Ok(false));
    assert_eq!(compare(Contains::Contain, false, &doc(r#""b""#), &arr), Ok(true));
    assert_eq!(compare(Contains::Contain, false, &arr, &doc(r#""b""#)), Ok(true));
    assert_eq!(compare(Contains::Contain, false, &doc("1"), &doc("1")), Err(MatchError::NotBothLists));
    assert_eq!(compare(Contains::Contain, true, &doc(r#""b""#), &arr), Ok(false));
}

#[test]
fn compare_is_symmetric_on_examples() {
    let xs = [r#"["a","b"]"#, r#"["b"]"#, r#""b""#, "3", "[]"];
    for c in [Contains::Equal, Contains::Intersect, Contains::Contain] {
        for a in xs {
            for b in xs {
                assert_eq!(
                    compare(c, false, &doc(a), &doc(b)),
                    compare(c, false, &doc(b), &doc(a)),
                    "{a} {b}"
                );
            }
        }
    }
}

#[test]
fn matching_covers_its_cases() {
    let pod = doc(POD);
    let none: Option<&Fetched> = None;
    assert_eq!(check("/spec/replicas", None, Contains::Equal).matching("Service", &pod, false, none), Ok(false));
    assert_eq!(check("/spec/nothing", None, Contains::Equal).matching("Pod", &pod, false, none), Err(MatchError::Unresolved));
    assert_eq!(check("/spec/replicas", None, Contains::Equal).matching("Pod", &pod, false, none), Ok(true));
    assert_eq!(check("/spec/empty", None, Contains::Equal).matching("Pod", &pod, false, none), Ok(false));
    assert_eq!(check("/spec/replicas", literal("3"), Contains::Equal).matching("Pod", &pod, false, none), Ok(true));
    assert_eq!(check("/spec/replicas", literal("4"), Contains::Equal).matching("Pod", &pod, false, none), Ok(false));
    assert_eq!(check("/spec/replicas", pointer_value("/spec/mirror", None, false), Contains::Equal).matching("Pod", &pod, false, none), Ok(true));
    assert_eq!(check("/spec/replicas", pointer_value("/spec/gone", None, false), Contains::Equal).matching("Pod", &pod, false, none), Err(MatchError::Unresolved));
    assert_eq!(check("/spec/tags", pointer_value("/spec/one", None, false), Contains::Contain).matching("Pod", &pod, false, none), Ok(true));
    assert_eq!(check("/spec/tags", pointer_value("/spec/one", None, false), Contains::Contain).matching("Pod", &pod, true, none), Ok(false));
}

#[test]
fn matching_with_a_fetched_resource() {
    let pod = doc(POD);
    let m = check("/spec/tags", pointer_value("/data/allowed", Some("ConfigMap:ns/tags"), false), Contains::Intersect);
    let r = m.resource_to_fetch("Pod", &pod).unwrap();
    assert_eq!((r.kind.as_str(), r.name.as_str()), ("ConfigMap", "tags"));
    assert!(m.resource_to_fetch("Service", &pod).is_none());
    let found = Fetched::Found(doc(r#"{"data":{"allowed":["z","c"]}}"#));
    assert_eq!(m.matching("Pod", &pod, false, Some(&found)), Ok(true));
    assert_eq!(m.matching("Pod", &pod, false, Some(&Fetched::Missing)), Err(MatchError::ResourceMissing));
    assert_eq!(m.matching("Pod", &pod, false, Some(&Fetched::Failed)), Err(MatchError::FetchFailed));
    assert_eq!(m.matching("Pod", &pod, false, None), Err(MatchError::FetchFailed));
    let ignoring = check("/spec/tags", pointer_value("/data/allowed", Some("ConfigMap:ns/tags"), true), Contains::Intersect);
    assert_eq!(ignoring.matching("Pod", &pod, false, Some(&Fetched::Missing)), Ok(true));
    let unresolved = check("/spec/none", pointer_value("/data", Some("ConfigMap:tags"), false), Contains::Equal);
    assert!(unresolved.resource_to_fetch("Pod", &pod).is_none());
}

#[test]
fn chunk_by_value_starts_groups_where_the_predicate_fails() {
    let v = vec![1, 2, 3, 10, 4, 11, 12, 5];
    let groups = v.chunk_by_value(|x: &i32| *x < 10);
    assert_eq!(groups, vec![vec![1, 2, 3], vec![10, 4], vec![11], vec![12, 5]]);
    let groups = vec![10, 1].chunk_by_value(|x: &i32| *x < 10);
    assert_eq!(groups, vec![vec![10, 1]]);
    assert!(Vec::<i32>::new().chunk_by_value(|_: &i32| true).is_empty());
    let flat: Vec<i32> = vec![5, 20, 30, 1].chunk_by_value(|x: &i32| *x < 10).concat();
    assert_eq!(flat, vec![5, 20, 30, 1]);
}

#[test]
fn a_check_is_built_from_its_options() {
    let m = Match::try_from(vec![
        TypeHelper::PointerBufS(ptr("/a")),
        TypeHelper::StringK("Pod".to_string()),
        TypeHelper::StringK("Deployment".to_string()),
        TypeHelper::Contains(Contains::Contain),
        TypeHelper::PointerBufD(ptr("/b")),
        TypeHelper::Resource(K8SResource::from_str("ConfigMap:c").unwrap()),
        TypeHelper::BoolI(true),
        TypeHelper::ValueM(doc("1")),
    ])
    .unwrap();
    assert_eq!(m.kinds, vec!["Pod".to_string(), "Deployment".to_string()]);
    assert_eq!(m.contains, Contains::Contain);
    match m.value {
        Some(MatchValue::JsonPath { resource: Some(r), ignore_resource_not_exist: true, json_path }) => {
            assert_eq!(r.name, "c");
            assert_eq!(json_path.tokens, vec!["b".to_string()]);
        }
        _ => panic!(),
    }
    assert!(matches!(m.value_to_be, Some(MatchValue::Value { .. })));
    let m = Match::try_from(vec![TypeHelper::PointerBufS(ptr("/a")), TypeHelper::PointerBufS(ptr("/b"))]).unwrap();
    assert_eq!(m.json_path.tokens, vec!["b".to_string()]);
    assert!(m.value.is_none() && m.value_to_be.is_none() && m.contains == Contains::Equal);
}

#[test]
fn a_check_refuses_conflicting_options() {
    let e = Match::try_from(vec![TypeHelper::Value(doc("1"))]).unwrap_err();
    assert_eq!(e, ConfigError::MissingJsonPath);
    let e = Match::try_from(vec![
        TypeHelper::PointerBufS(ptr("/a")),
        TypeHelper::Value(doc("1")),
        TypeHelper::PointerBufD(ptr("/b")),
        TypeHelper::ValueM(doc("1")),
        TypeHelper::PointerBufDM(ptr("/c")),
    ])
    .unwrap_err();
    assert_eq!(e, ConfigError::ValueAndPointer);
    let e = Match::try_from(vec![
        TypeHelper::PointerBufS(ptr("/a")),
        TypeHelper::ValueM(doc("1")),
        TypeHelper::PointerBufDM(ptr("/c")),
    ])
    .unwrap_err();
    assert_eq!(e, ConfigError::MutationValueAndPointer);
}

#[test]
fn checks_follow_command_line_order() {
    let args = vec![
        (TypeHelper::StringK("Pod".to_string()), 4),
        (TypeHelper::PointerBufS(ptr("/second")), 3),
        (TypeHelper::Value(doc("2")), 5),
        (TypeHelper::PointerBufS(ptr("/first")), 1),
        (TypeHelper::Value(doc("1")), 2),
    ];
    let ms = Matches::from_arguments(args).unwrap();
    assert_eq!(ms.0.len(), 2);
    assert_eq!(ms.0[0].json_path.tokens, vec!["first".to_string()]);
    assert!(ms.0[0].kinds.is_empty());
    assert_eq!(ms.0[1].json_path.tokens, vec!["second".to_string()]);
    assert_eq!(ms.0[1].kinds, vec!["Pod".to_string()]);
    match &ms.0[1].value {
        Some(MatchValue::Value { value }) => assert!(json_eq(value, &doc("2"))),
        _ => panic!(),
    }
    let err = Matches::from_arguments(vec![(TypeHelper::Value(doc("1")), 1), (TypeHelper::PointerBufS(ptr("/a")), 2)]);
    assert_eq!(err.unwrap_err(), ConfigError::MissingJsonPath);
    assert!(Matches::from_arguments(Vec::new()).unwrap().0.is_empty());
}

fn two_checks() -> Matches {
    Matches(vec![
        check("/spec/replicas", literal("3"), Contains::Equal),
        check("/metadata/labels/app", literal(r#""db""#), Contains::Equal),
    ])
}

#[test]
fn checking_counts_undecided_checks_as_failed() {
    let ms = Matches(vec![
        check("/spec/replicas", literal("3"), Contains::Equal),
        check("/spec/missing", None, Contains::Equal),
    ]);
    let pod = doc(POD);
    assert_eq!(ms.checking("Pod", &pod, false, &vec![None, None]), vec![true, false]);
    assert_eq!(ms.resources_to_fetch("Pod", &pod).len(), 2);
}

#[test]
fn combining_verdicts() {
    assert!(combine(&MatchCombiner::Any, &vec![false, true]));
    assert!(!combine(&MatchCombiner::Any, &vec![]));
    assert!(!combine(&MatchCombiner::All, &vec![true, false]));
    assert!(combine(&MatchCombiner::All, &vec![]));
    assert!(combine(&MatchCombiner::from_str("1 == 1").unwrap(), &vec![false]));
    assert!(!combine(&MatchCombiner::from_str("1 == 2").unwrap(), &vec![true]));
    // the expression is kept as given, over the names `v1`, `v2`, ...
    assert!(combine(&MatchCombiner::from_str("v1 && v2").unwrap(), &vec![true, true]));
    assert!(!combine(&MatchCombiner::from_str("V1 || v2").unwrap(), &vec![true, true]));
    assert!(combine(&MatchCombiner::BooleanExpression("v1 && !v2".to_string()), &vec![true, false]));
    assert!(!combine(&MatchCombiner::BooleanExpression("v1 + 1".to_string()), &vec![true]));
    let mut ten = vec![false; 10];
    ten[9] = true;
    assert!(combine(&MatchCombiner::BooleanExpression("v10 && !v1".to_string()), &ten));
    assert!(!combine(&MatchCombiner::BooleanExpression("v9".to_string()), &ten));
    // a verdict beyond the last one is not bound
    assert!(!combine(&MatchCombiner::BooleanExpression("v11 || v10".to_string()), &ten));
}

#[test]
fn validation_combines_the_checks() {
    let pod = doc(POD);
    let ms = two_checks();
    let f = vec![None, None];
    assert!(validate(&ms, &MatchCombiner::Any, "Pod", &pod, &f));
    assert!(!validate(&ms, &MatchCombiner::All, "Pod", &pod, &f));
    assert!(!validate(&ms, &MatchCombiner::Any, "Service", &pod, &f));
}

#[test]
fn mutation_writes_after_all_checks_pass() {
    let pod = doc(POD);
    let mut m1 = check("/spec/replicas", literal("3"), Contains::Equal);
    m1.value_to_be = literal("5");
    let mut m2 = check("/metadata/labels/app", None, Contains::Equal);
    m2.value_to_be = pointer_value("/metadata/labels/tier", None, false);
    let mut m3 = check("/metadata/name", None, Contains::Equal);
    m3.value_to_be = pointer_value("/source", Some("ConfigMap:ns/src"), false);
    let ms = Matches(vec![m1, m2, m3]);
    let needed = ms.mutation_resources("Pod");
    assert!(needed[0].is_none() && needed[1].is_none() && needed[2].is_some());
    let fetched = vec![None, None, Some(Fetched::Found(doc(r#"{"source":"renamed"}"#)))];
    let out = mutate(&ms, "Pod", &pod, &vec![None, None, None], &fetched).unwrap();
    let expected = r#"{"metadata":{"name":"renamed","labels":{"app":"front","tier":"front"}},
      "spec":{"tags":["a","b","c"],"replicas":5,"mirror":3,"empty":null,"one":"b"}}"#;
    assert!(json_eq(&out, &doc(expected)));
    let missing = vec![None, None, Some(Fetched::Missing)];
    assert_eq!(mutate(&ms, "Pod", &pod, &vec![None, None, None], &missing).unwrap_err(), MutationError::ResourceMissing);
    let failed = vec![None, None, Some(Fetched::Failed)];
    assert_eq!(mutate(&ms, "Pod", &pod, &vec![None, None, None], &failed).unwrap_err(), MutationError::FetchFailed);
    assert_eq!(mutate(&ms, "Service", &pod, &vec![None, None, None], &fetched).unwrap_err(), MutationError::TestFailed);
}

#[test]
fn mutation_sets_a_missing_path_without_a_test() {
    let pod = doc(POD);
    let m = Match { json_path: ptr("/spec/added"), kinds: vec!["Pod".to_string()], value: None, contains: Contains::Equal, value_to_be: literal(r#""yes""#) };
    let out = mutate(&Matches(vec![m]), "Pod", &pod, &vec![None], &vec![None]).unwrap();
    assert!(json_eq(ptr("/spec/added").resolve(&out).unwrap(), &doc(r#""yes""#)));
}

#[test]
fn mutation_errors() {
    let pod = doc(POD);
    let mut m = check("/spec/tags/7", None, Contains::Equal);
    m.json_path = ptr("/spec/tags");
    m.value_to_be = literal("1");
    let mut bad = check("/spec/tags", None, Contains::Equal);
    bad.json_path = ptr("/spec/tags");
    bad.value_to_be = pointer_value("/nothing", None, false);
    let ms = Matches(vec![bad]);
    assert_eq!(mutate(&ms, "Pod", &pod, &vec![None], &vec![None]).unwrap_err(), MutationError::Unresolved);
    let mut idx = check("/spec/tags", None, Contains::Equal);
    idx.value_to_be = literal("1");
    idx.json_path = ptr("/spec/tags");
    // a check without a value to compare with is not tested: it writes
    let ms = Matches(vec![idx, Match { json_path: ptr("/spec/tags/9"), kinds: vec!["Pod".to_string()], value: None, contains: Contains::Equal, value_to_be: literal("2") }]);
    let out = mutate(&ms, "Pod", &pod, &vec![None, None], &vec![None, None]).unwrap();
    assert!(json_eq(ptr("/spec/tags").resolve(&out).unwrap(), &doc(r#"{"9":2}"#)));
    // a check with a value to compare with is tested first
    let ms = Matches(vec![Match { json_path: ptr("/spec/new"), kinds: vec!["Pod".to_string()], value: literal("1"), contains: Contains::Equal, value_to_be: literal("2") }]);
    assert_eq!(mutate(&ms, "Pod", &pod, &vec![None], &vec![None]).unwrap_err(), MutationError::TestFailed);
    let ms = Matches(vec![Match { json_path: ptr("/spec/tags"), kinds: vec!["Pod".to_string()], value: None, contains: Contains::Equal, value_to_be: None },
        Match { json_path: ptr("/spec/replicas"), kinds: vec!["Pod".to_string()], value: None, contains: Contains::Equal, value_to_be: None }]);
    let out = mutate(&ms, "Pod", &pod, &vec![None, None], &vec![None, None]).unwrap();
    assert!(json_eq(&out, &pod));
    let _ = m;
}

#[test]
fn mutation_index_errors() {
    let pod = doc(r#"{"l":[1]}"#);
    let ms = Matches(vec![Match {
        json_path: ptr("/l"),
        kinds: vec!["Pod".to_string()],
        value: None,
        contains: Contains::Equal,
        value_to_be: None,
    }, Match {
        json_path: ptr("/l"),
        kinds: vec!["Pod".to_string()],
        value: None,
        contains: Contains::Equal,
        value_to_be: None,
    }]);
    let mut writer = Match { json_path: ptr("/l/5"), kinds: vec!["Pod".to_string()], value: None, contains: Contains::Equal, value_to_be: literal("2") };
    // without a value to compare with there is no test; the write past the end fails
    assert_eq!(mutate(&Matches(vec![writer]), "Pod", &pod, &vec![None], &vec![None]).unwrap_err(), MutationError::BadIndex);
    writer = Match { json_path: ptr("/l"), kinds: vec!["Pod".to_string()], value: None, contains: Contains::Equal, value_to_be: literal("2") };
    let _ = ms;
    let out = mutate(&Matches(vec![writer]), "Pod", &pod, &vec![None], &vec![None]).unwrap();
    assert!(json_eq(&out, &doc(r#"{"l":2}"#)));
}
