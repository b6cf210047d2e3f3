use json_eval_rs::cache::{CacheKey, EvalCache};
use json_eval_rs::compiled::{CompiledLogic, LogicId};
use json_eval_rs::compiled_logic_store::SharedLogicStore;
use json_eval_rs::data_wrapper::json_eq;
use json_eval_rs::forward::is_positive_number_text;
use json_eval_rs::json::JsonValue;
use json_eval_rs::logic_store::CompiledLogicStore;
use json_eval_rs::path::{parse_path, traverse, PathSegment};

fn key(id: u64, v: u64) -> CacheKey {
    CacheKey::from_dependencies(LogicId(id), v, &[1, 2])
}

fn num(n: &str) -> JsonValue {
    JsonValue::Number(n.to_string())
}

fn s(x: &str) -> JsonValue {
    JsonValue::String(x.to_string())
}

fn arr(v: Vec<JsonValue>) -> JsonValue {
    JsonValue::Array(v)
}

fn op(name: &str, args: JsonValue) -> JsonValue {
    JsonValue::Object(vec![(name.to_string(), args)])
}

#[test]
fn cache_key_keeps_logic_id() {
    let k = key(7, 3);
    assert_eq!(k.logic_id(), LogicId(7));
    assert_eq!(key(7, 3), key(7, 3));
}

#[test]
fn cache_hit_and_miss_counts() {
    let mut c = EvalCache::new();
    assert!(c.get(&key(1, 0)).is_none());
    c.insert(key(1, 0), num("5"));
    let v = c.get(&key(1, 0)).unwrap();
    assert!(json_eq(&v, &num("5")));
    let st = c.stats();
    assert_eq!((st.hits, st.misses, st.size), (1, 1, 1));
    c.reset_stats();
    assert_eq!(c.stats().hits, 0);
    assert_eq!(c.capacity(), None);
}

#[test]
fn cache_evicts_least_recently_used() {
    let mut c = EvalCache::with_capacity(Some(2));
    c.insert(key(1, 0), num("1"));
    c.insert(key(2, 0), num("2"));
    // first hit (count 0) refreshes key 1
    assert!(c.get(&key(1, 0)).is_some());
    c.insert(key(3, 0), num("3"));
    assert!(c.get(&key(2, 0)).is_none());
    assert!(c.get(&key(1, 0)).is_some());
    assert!(c.get(&key(3, 0)).is_some());
    assert_eq!(c.stats().size, 2);
}

#[test]
fn cache_reinsert_replaces_value() {
    let mut c = EvalCache::with_capacity(Some(1));
    c.insert(key(1, 0), num("1"));
    c.insert(key(1, 0), num("9"));
    assert!(json_eq(&c.get(&key(1, 0)).unwrap(), &num("9")));
    let mut z = EvalCache::with_capacity(Some(0));
    z.insert(key(1, 0), num("1"));
    assert_eq!(z.stats().size, 0);
}

#[test]
fn cache_invalidate_and_clear() {
    let mut c = EvalCache::new();
    c.insert(key(1, 0), num("1"));
    c.insert(key(2, 0), num("2"));
    c.insert(key(1, 1), num("3"));
    c.invalidate_logic(&LogicId(1));
    assert_eq!(c.stats().size, 1);
    assert!(c.get(&key(2, 0)).is_some());
    c.clear();
    assert_eq!(c.stats().size, 0);
}

#[test]
fn positive_number_texts() {
    for t in ["1", "0.5", "1e5", "+2", "inf", "Infinity", "00.01", "3.", ".5", "1E-3"] {
        assert!(is_positive_number_text(t), "{}", t);
    }
    for t in ["0", "-1", "0e5", "abc", "", "1.2.3", "1e", "nan", "-inf", ".", "e5", "1e+"] {
        assert!(!is_positive_number_text(t), "{}", t);
    }
}

#[test]
fn forward_reference_detection() {
    let idx = op("+", arr(vec![op("$ref", s("$iteration")), num("1")]));
    let logic = op("VALUEAT", arr(vec![op("var", s("table")), idx, s("col")]));
    let c = CompiledLogic::compile(&logic).unwrap();
    assert!(c.has_forward_reference());
    let back = op("+", arr(vec![op("$ref", s("$iteration")), num("-1")]));
    let logic2 = op("VALUEAT", arr(vec![op("var", s("table")), back, s("col")]));
    assert!(!CompiledLogic::compile(&logic2).unwrap().has_forward_reference());
    let nested = op("if", arr(vec![JsonValue::Bool(true), op("VALUEAT", arr(vec![op("var", s("t")), op("+", arr(vec![op("$ref", s("$iteration")), num("2")]))])), num("0")]));
    assert!(CompiledLogic::compile(&nested).unwrap().has_forward_reference());
}

#[test]
fn local_store_tracks_dependencies() {
    let mut shared = SharedLogicStore::new();
    let mut store = CompiledLogicStore::new();
    let logic = op("+", arr(vec![op("var", s("b")), op("var", s("a"))]));
    let id = store.compile(&mut shared, &logic).unwrap();
    assert_eq!(id, LogicId(0));
    assert!(store.get(&id).is_some());
    assert_eq!(store.get_dependencies(&id).unwrap(), &["a".to_string(), "b".to_string()]);
    let id2 = store.compile(&mut shared, &logic).unwrap();
    assert_eq!(id2, LogicId(1));
    assert!(store.remove(&id).is_some());
    assert!(store.get(&id).is_none());
    assert!(store.get_dependencies(&id).is_none());
    assert!(store.compile(&mut shared, &op("nope", arr(vec![]))).is_err());
}

#[test]
fn parse_path_segments() {
    let p = parse_path("a..b.0.+1.c.");
    assert_eq!(
        p,
        vec![
            PathSegment::Key("a".to_string()),
            PathSegment::Key("b".to_string()),
            PathSegment::Index(0),
            PathSegment::Index(1),
            PathSegment::Key("c".to_string())
        ]
    );
    assert!(parse_path("").is_empty());
    assert_eq!(parse_path("99999999999999999999999"), vec![PathSegment::Key("99999999999999999999999".to_string())]);
    let data = JsonValue::Object(vec![("a".to_string(), arr(vec![num("1"), num("2")]))]);
    assert!(json_eq(traverse(&data, &parse_path("a.1")).unwrap(), &num("2")));
    assert!(traverse(&data, &parse_path("a.2")).is_none());
    assert!(traverse(&data, &parse_path("b")).is_none());
}
