use json_eval_rs::data_wrapper::{json_eq, DataVersion, TrackedData, TrackedDataBuilder};
use json_eval_rs::json::JsonValue;

fn num(n: &str) -> JsonValue {
    JsonValue::Number(n.to_string())
}

fn s(x: &str) -> JsonValue {
    JsonValue::String(x.to_string())
}

fn obj(es: Vec<(&str, JsonValue)>) -> JsonValue {
    JsonValue::Object(es.into_iter().map(|(k, v)| (k.to_string(), v)).collect())
}

fn same(a: Option<&JsonValue>, b: &JsonValue) -> bool {
    match a {
        Some(x) => json_eq(x, b),
        None => false,
    }
}

#[test]
fn test_version_increment() {
    let mut data = TrackedData::new(obj(vec![("name", s("test"))]), 0);
    let v1 = data.version();
    data.set("name", s("updated"));
    let v2 = data.version();
    assert!(v2 > v1);
}

#[test]
fn test_nested_path() {
    let mut data = TrackedData::new(obj(vec![("user", obj(vec![("name", s("John"))]))]), 0);
    assert!(same(data.get("user.name"), &s("John")));

    data.set("user.age", num("30"));
    assert!(same(data.get("user.age"), &num("30")));
}

#[test]
fn test_field_modification_tracking() {
    let mut data = TrackedData::new(obj(vec![("a", num("1")), ("b", num("2"))]), 0);
    let v1 = data.version();

    data.set("a", num("10"));

    assert!(data.field_modified_since("a", v1));
    assert!(!data.field_modified_since("b", v1));
}

#[test]
fn test_deep_merge_preserves_unchanged() {
    let mut data = TrackedData::new(
        obj(vec![
            ("user", obj(vec![("name", s("John")), ("age", num("30"))])),
            ("settings", obj(vec![("theme", s("dark"))])),
        ]),
        0,
    );

    let v1 = data.version();

    let other = obj(vec![
        ("user", obj(vec![("name", s("John")), ("age", num("31")), ("email", s("john@example.com"))])),
        ("settings", obj(vec![("theme", s("dark"))])),
    ]);

    let changes = data.deep_merge(&other);

    assert_eq!(changes, 2);

    assert!(same(data.get("user.name"), &s("John")));
    assert!(same(data.get("user.age"), &num("31")));
    assert!(same(data.get("user.email"), &s("john@example.com")));
    assert!(same(data.get("settings.theme"), &s("dark")));

    assert!(data.version() > v1);
}

#[test]
fn test_deep_merge_no_changes() {
    let mut data = TrackedData::new(obj(vec![("a", num("1")), ("b", obj(vec![("c", num("2"))]))]), 0);
    let v1 = data.version();

    let other = obj(vec![("a", num("1")), ("b", obj(vec![("c", num("2"))]))]);
    let changes = data.deep_merge(&other);

    assert_eq!(changes, 0);

    assert_eq!(data.version(), v1);
}

#[test]
fn test_tracked_data_builder() {
    let data = TrackedDataBuilder::new().set("name", s("John")).set("age", num("30")).build(0);

    assert!(same(data.get("name"), &s("John")));
    assert!(same(data.get("age"), &num("30")));
}

#[test]
fn set_creates_missing_objects_and_pads_arrays() {
    let mut data = TrackedData::new(obj(vec![("list", JsonValue::Array(vec![]))]), 0);
    data.set("a.b.c", num("1"));
    assert!(same(data.get("a.b.c"), &num("1")));
    data.set("list.2", s("x"));
    assert!(same(data.get("list.2"), &s("x")));
    assert!(same(data.get("list.0"), &JsonValue::Null));
    assert!(data.get("list.3").is_none());
}

#[test]
fn push_to_array_appends_and_bumps() {
    let mut data = TrackedData::new(obj(vec![("rows", JsonValue::Array(vec![num("1")]))]), 0);
    let v = data.push_to_array("rows", num("2"));
    assert_eq!(v, 1);
    assert!(same(data.get("rows.1"), &num("2")));
    let v = data.push_to_array("missing", num("3"));
    assert_eq!(v, 2);
    assert!(data.get("missing").is_none());
}

#[test]
fn dependency_versions_default_to_zero() {
    let mut data = TrackedData::new(obj(vec![("x", num("1"))]), 7);
    assert_eq!(data.instance_id(), 7);
    data.set("x", num("2"));
    data.mark_modified("y");
    let vs = data.dependency_versions(&["x".to_string(), "y".to_string(), "z".to_string()]);
    assert_eq!(vs, vec![1, 2, 0]);
    let vals = data.get_values(&["x".to_string(), "nope".to_string()]);
    assert!(json_eq(&vals[0], &num("2")));
    assert!(json_eq(&vals[1], &JsonValue::Null));
}

#[test]
fn object_equality_ignores_order() {
    let a = obj(vec![("a", num("1")), ("b", num("2"))]);
    let b = obj(vec![("b", num("2")), ("a", num("1"))]);
    assert!(json_eq(&a, &b));
    assert!(!json_eq(&a, &obj(vec![("a", num("1"))])));
    assert!(!json_eq(&num("1"), &num("1.0")));
}

#[test]
fn clone_keeps_versions() {
    let mut data = TrackedData::new(obj(vec![]), 3);
    data.set("k", num("5"));
    let c = data.clone();
    assert_eq!(c.version(), 1);
    assert_eq!(c.instance_id(), 3);
    assert!(c.field_modified_since("k", 0));
    assert_eq!(DataVersion(4), DataVersion(4));
}

#[test]
fn second_merge_of_the_same_value_changes_nothing() {
    let mut data = TrackedData::new(obj(vec![("a", num("1")), ("b", obj(vec![("c", num("2"))]))]), 0);
    let other = obj(vec![("b", obj(vec![("c", num("3")), ("d", s("x"))])), ("e", s("y"))]);
    let first = data.deep_merge(&other);
    assert_eq!(first, 3);
    let after_first = data.version();
    let snapshot = data.data().clone();
    let second = data.deep_merge(&other);
    assert_eq!(second, 0);
    assert_eq!(data.version(), after_first);
    assert!(json_eq(data.data(), &snapshot));
}
