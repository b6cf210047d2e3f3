use json_eval_rs::compiled::CompiledLogic;
use json_eval_rs::compiled_logic_store::{
    clear_store, compile_logic, compile_logic_value, get_compiled_logic, get_store_stats,
    try_compile_logic, CompiledLogicId, SharedLogicStore,
};
use json_eval_rs::json::JsonValue;

fn num(n: &str) -> JsonValue {
    JsonValue::Number(n.to_string())
}

fn var(name: &str) -> JsonValue {
    JsonValue::Object(vec![("var".to_string(), JsonValue::String(name.to_string()))])
}

#[test]
fn test_compile_and_get() {
    let mut store = SharedLogicStore::new();
    clear_store(&mut store);

    let logic = r#"{"==": [{"var": "x"}, 10]}"#;
    let id = compile_logic(&mut store, logic).expect("Failed to compile");

    let compiled = get_compiled_logic(&store, id);
    assert!(compiled.is_some());
}

#[test]
fn test_deduplication() {
    let mut store = SharedLogicStore::new();
    clear_store(&mut store);

    let logic = r#"{"*": [{"var": "a"}, 2]}"#;

    let id1 = compile_logic(&mut store, logic).expect("Failed to compile");
    let id2 = compile_logic(&mut store, logic).expect("Failed to compile");

    // Same logic should return same ID
    assert_eq!(id1, id2);
}

#[test]
fn test_different_logic() {
    let mut store = SharedLogicStore::new();
    clear_store(&mut store);

    let logic1 = r#"{"*": [{"var": "a"}, 2]}"#;
    let logic2 = r#"{"*": [{"var": "b"}, 3]}"#;

    let id1 = compile_logic(&mut store, logic1).expect("Failed to compile");
    let id2 = compile_logic(&mut store, logic2).expect("Failed to compile");

    // Different logic should return different IDs
    assert_ne!(id1, id2);
}

#[test]
fn test_stats() {
    let mut store = SharedLogicStore::new();
    clear_store(&mut store);

    let logic = r#"{"+": [1, 2, 3]}"#;
    let _ = compile_logic(&mut store, logic).expect("Failed to compile");

    let stats = get_store_stats(&store);
    assert_eq!(stats.compiled_count, 1);
    assert_eq!(stats.next_id, 2);
}

#[test]
fn store_first_ids_count_from_one() {
    let mut store = SharedLogicStore::new();
    let a = compile_logic(&mut store, r#"{"var": "a"}"#).unwrap();
    let b = compile_logic(&mut store, r#"{"var": "b"}"#).unwrap();
    assert_eq!(a.as_u64(), 1);
    assert_eq!(b.as_u64(), 2);
    let again = compile_logic(&mut store, r#"{"var": "a"}"#).unwrap();
    assert_eq!(again, a);
    assert_eq!(get_store_stats(&store).compiled_count, 2);
    assert_eq!(get_store_stats(&store).next_id, 3);
}

#[test]
fn store_parse_error_has_prefix_and_changes_nothing() {
    let mut store = SharedLogicStore::new();
    let err = compile_logic(&mut store, "{not json").unwrap_err();
    assert!(err.starts_with("Failed to parse logic JSON: "));
    assert_eq!(get_store_stats(&store).compiled_count, 0);
    assert_eq!(get_store_stats(&store).next_id, 1);
}

#[test]
fn store_compile_error_is_passed_on() {
    let mut store = SharedLogicStore::new();
    let err = compile_logic(&mut store, r#"{"no_such_op": [1]}"#).unwrap_err();
    assert_eq!(err, "Unknown operator: no_such_op");
    assert_eq!(get_store_stats(&store).next_id, 1);
}

#[test]
fn store_get_returns_the_compiled_expression() {
    let mut store = SharedLogicStore::new();
    let id = compile_logic(&mut store, r#"{"*": [{"var": "a"}, 2]}"#).unwrap();
    let c = get_compiled_logic(&store, id).unwrap();
    assert!(matches!(c, CompiledLogic::Multiply(ref v) if v.len() == 2));
    assert!(get_compiled_logic(&store, CompiledLogicId::from_u64(99)).is_none());
}

#[test]
fn store_clear_resets_ids() {
    let mut store = SharedLogicStore::new();
    let _ = compile_logic(&mut store, r#"{"var": "a"}"#).unwrap();
    clear_store(&mut store);
    assert_eq!(get_store_stats(&store).compiled_count, 0);
    assert_eq!(get_store_stats(&store).next_id, 1);
    let id = compile_logic(&mut store, r#"{"var": "z"}"#).unwrap();
    assert_eq!(id.as_u64(), 1);
}

#[test]
fn store_compile_value_matches_text() {
    let mut store = SharedLogicStore::new();
    let v = JsonValue::Object(vec![(
        "*".to_string(),
        JsonValue::Array(vec![var("a"), num("2")]),
    )]);
    let id1 = compile_logic_value(&mut store, &v).unwrap();
    let id2 = compile_logic(&mut store, r#"{"*":[{"var":"a"},2]}"#).unwrap();
    assert_eq!(id1, id2);
}

#[test]
fn store_try_compile_refuses_empty_left() {
    let mut store = SharedLogicStore::new();
    assert!(try_compile_logic(&mut store, r#"{"LEFT": []}"#).is_none());
    assert_eq!(get_store_stats(&store).next_id, 1);
    let ok = try_compile_logic(&mut store, r#"{"LEFT": ["abc", 1]}"#);
    assert!(matches!(ok, Some(Ok(_))));
}

#[test]
fn logic_id_round_trip() {
    assert_eq!(CompiledLogicId::from_u64(42).as_u64(), 42);
    assert_eq!(CompiledLogicId::from_u64(0), CompiledLogicId::from_u64(0));
}
