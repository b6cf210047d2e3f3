use json_eval_rs::compiled::CompiledLogic;
use json_eval_rs::compiled_logic_store::SharedLogicStore;
use json_eval_rs::json::JsonValue;
use json_eval_rs::logic_store::CompiledLogicStore;

fn num(n: &str) -> JsonValue {
    JsonValue::Number(n.to_string())
}

fn s(x: &str) -> JsonValue {
    JsonValue::String(x.to_string())
}

fn arr(v: Vec<JsonValue>) -> JsonValue {
    JsonValue::Array(v)
}

fn op(name: &str, args: JsonValue) -> JsonValue {
    JsonValue::Object(vec![(name.to_string(), args)])
}

fn var(name: &str) -> JsonValue {
    op("var", s(name))
}

#[test]
fn test_compile_basic_types() {
    assert!(matches!(CompiledLogic::compile(&JsonValue::Null), Ok(CompiledLogic::Null)));
    assert!(matches!(CompiledLogic::compile(&JsonValue::Bool(true)), Ok(CompiledLogic::Bool(true))));
    match CompiledLogic::compile(&num("42")) {
        Ok(CompiledLogic::Number(n)) => assert_eq!(n, "42"),
        _ => panic!("number"),
    }
    match CompiledLogic::compile(&s("hello")) {
        Ok(CompiledLogic::String(t)) => assert_eq!(t, "hello"),
        _ => panic!("string"),
    }
}

#[test]
fn referenced_vars_of_nested_condition() {
    let logic = op(
        "if",
        arr(vec![
            op("and", arr(vec![var("user.premium"), op(">", arr(vec![var("user.age"), num("18")]))])),
            var("discount"),
            num("0"),
        ]),
    );
    let compiled = CompiledLogic::compile(&logic).unwrap();
    let vars = compiled.referenced_vars();
    assert_eq!(vars, vec!["discount".to_string(), "user.age".to_string(), "user.premium".to_string()]);
}

#[test]
fn test_ref_referenced_vars() {
    let logic = op(
        "if",
        arr(vec![
            op("$ref", s("#/properties/user/properties/active")),
            op("$ref", s("/properties/user/properties/name")),
            s("inactive"),
        ]),
    );
    let compiled = CompiledLogic::compile(&logic).unwrap();
    let vars = compiled.referenced_vars();
    assert!(vars.contains(&"user.active".to_string()));
    assert!(vars.contains(&"user.name".to_string()));
}

#[test]
fn referenced_vars_sorted_without_repeats() {
    let logic = op("+", arr(vec![var("b"), var("a"), var("b"), op("*", arr(vec![var("c"), var("a")]))]));
    let compiled = CompiledLogic::compile(&logic).unwrap();
    assert_eq!(compiled.referenced_vars(), vec!["a".to_string(), "b".to_string(), "c".to_string()]);
    let mut all = Vec::new();
    compiled.collect_vars(&mut all);
    assert_eq!(all, vec!["b", "a", "b", "c", "a"]);
}

#[test]
fn collect_vars_skips_value_at_row_index() {
    let logic = op("VALUEAT", arr(vec![var("table"), var("row"), s("col")]));
    let compiled = CompiledLogic::compile(&logic).unwrap();
    let mut all = Vec::new();
    compiled.collect_vars(&mut all);
    assert_eq!(all, vec!["table"]);
}

#[test]
fn var_with_default_reads_default_vars() {
    let logic = op("var", arr(vec![s("x"), var("y")]));
    let compiled = CompiledLogic::compile(&logic).unwrap();
    assert_eq!(compiled.referenced_vars(), vec!["x".to_string(), "y".to_string()]);
    assert!(!compiled.is_simple_ref());
    let plain = CompiledLogic::compile(&var("x")).unwrap();
    assert!(plain.is_simple_ref());
}

#[test]
fn var_path_becomes_json_pointer() {
    match CompiledLogic::compile(&var("user.name")).unwrap() {
        CompiledLogic::Var(p, None) => assert_eq!(p, "/user/name"),
        _ => panic!("var"),
    }
}

#[test]
fn nested_and_is_flattened() {
    let logic = op("and", arr(vec![op("and", arr(vec![var("a"), var("b")])), var("c")]));
    match CompiledLogic::compile(&logic).unwrap() {
        CompiledLogic::And(items) => {
            assert_eq!(items.len(), 3);
            assert!(items.iter().all(|i| matches!(i, CompiledLogic::Var(_, None))));
        },
        _ => panic!("and"),
    }
}

#[test]
fn double_negation_is_removed() {
    let logic = op("!", arr(vec![op("!", arr(vec![var("a")]))]));
    assert!(matches!(CompiledLogic::compile(&logic).unwrap(), CompiledLogic::Var(_, None)));
}

#[test]
fn unknown_operator_is_an_error() {
    let logic = op("frobnicate", arr(vec![]));
    assert_eq!(CompiledLogic::compile(&logic).unwrap_err(), "Unknown operator: frobnicate");
}

#[test]
fn binary_operator_needs_two_arguments() {
    let logic = op("==", arr(vec![num("1")]));
    assert_eq!(CompiledLogic::compile(&logic).unwrap_err(), "Binary operator requires exactly 2 arguments");
}

#[test]
fn try_compile_reports_empty_left() {
    let logic = op("LEFT", arr(vec![]));
    assert!(CompiledLogic::try_compile(&logic).is_none());
    let ok = op("LEFT", arr(vec![s("abc")]));
    assert!(matches!(CompiledLogic::try_compile(&ok), Some(Ok(CompiledLogic::Left(_, None)))));
}

#[test]
fn empty_object_compiles_to_null() {
    assert!(matches!(CompiledLogic::compile(&JsonValue::Object(vec![])), Ok(CompiledLogic::Null)));
}

#[test]
fn clone_keeps_structure() {
    let logic = op("cat", arr(vec![s("a"), var("b")]));
    let c = CompiledLogic::compile(&logic).unwrap();
    let d = c.clone();
    assert_eq!(format!("{:?}", c), format!("{:?}", d));
}

#[test]
fn test_referenced_vars() {
    let mut shared = SharedLogicStore::new();
    let mut engine = CompiledLogicStore::new();
    let logic = op(
        "if",
        arr(vec![
            op("and", arr(vec![var("user.premium"), op(">", arr(vec![var("user.age"), num("18")]))])),
            var("discount"),
            num("0"),
        ]),
    );
    let logic_id = engine.compile(&mut shared, &logic).unwrap();
    let vars = engine.get_referenced_vars(&logic_id).unwrap();
    assert!(vars.contains(&"user.premium".to_string()));
    assert!(vars.contains(&"user.age".to_string()));
    assert!(vars.contains(&"discount".to_string()));
}

#[test]
fn value_at_next_iteration_is_a_forward_reference() {
    let next = op(
        "VALUEAT",
        arr(vec![var("T"), op("+", arr(vec![var("$iteration"), num("1")])), s("c")]),
    );
    let prev = op(
        "VALUEAT",
        arr(vec![var("T"), op("-", arr(vec![var("$iteration"), num("1")])), s("c")]),
    );
    assert!(CompiledLogic::compile(&next).unwrap().has_forward_reference());
    assert!(!CompiledLogic::compile(&prev).unwrap().has_forward_reference());
    let mut shared = SharedLogicStore::new();
    let mut engine = CompiledLogicStore::new();
    let id = engine.compile(&mut shared, &next).unwrap();
    assert!(engine.has_forward_reference(&id));
    assert!(!engine.has_forward_reference(&json_eval_rs::compiled::LogicId(99)));
}

#[test]
fn iteration_variable_reported_dotted() {
    let compiled = CompiledLogic::compile(&var("$iteration")).unwrap();
    assert_eq!(compiled.referenced_vars(), vec!["$iteration".to_string()]);
}
