use json_eval_rs::compiled::{CompiledLogic, Tag};
use json_eval_rs::config::RLogicConfig;
use json_eval_rs::data_wrapper::json_eq;
use json_eval_rs::evaluate::{eval_begin, eval_step, is_truthy, EvalOutcome, EvalRequest};
use json_eval_rs::json::JsonValue;

fn num(n: &str) -> JsonValue {
    JsonValue::Number(n.to_string())
}

fn s(x: &str) -> JsonValue {
    JsonValue::String(x.to_string())
}

fn arr(v: Vec<JsonValue>) -> JsonValue {
    JsonValue::Array(v)
}

fn obj(es: Vec<(&str, JsonValue)>) -> JsonValue {
    JsonValue::Object(es.into_iter().map(|(k, v)| (k.to_string(), v)).collect())
}

fn op(name: &str, args: JsonValue) -> JsonValue {
    obj(vec![(name, args)])
}

fn var(name: &str) -> JsonValue {
    op("var", s(name))
}

fn compile(v: &JsonValue) -> CompiledLogic {
    match CompiledLogic::compile(v) {
        Ok(c) => c,
        Err(e) => panic!("compile failed: {}", e),
    }
}

fn value_of(o: &EvalOutcome) -> &JsonValue {
    match o {
        EvalOutcome::Value(v) => v,
        other => panic!("expected a value, got {:?}", other),
    }
}

#[test]
fn variables_are_read_by_dotted_path() {
    let logic = compile(&var("user.name"));
    let data = obj(vec![("user", obj(vec![("name", s("Ann"))]))]);
    let (_, o) = eval_begin(&logic, &data, &RLogicConfig::new());
    assert!(json_eq(value_of(&o), &s("Ann")));
}

#[test]
fn missing_variable_takes_its_default() {
    let logic = compile(&op("var", arr(vec![s("a.b"), s("fallback")])));
    let (_, o) = eval_begin(&logic, &obj(vec![]), &RLogicConfig::new());
    assert!(json_eq(value_of(&o), &s("fallback")));
}

#[test]
fn if_picks_the_branch_by_truthiness() {
    let logic = compile(&op("if", arr(vec![var("flag"), s("yes"), s("no")])));
    let cfg = RLogicConfig::new();
    let (_, yes) = eval_begin(&logic, &obj(vec![("flag", num("2"))]), &cfg);
    assert!(json_eq(value_of(&yes), &s("yes")));
    let (_, no) = eval_begin(&logic, &obj(vec![("flag", num("0.0"))]), &cfg);
    assert!(json_eq(value_of(&no), &s("no")));
}

#[test]
fn and_stops_at_the_first_false_value() {
    let logic = compile(&op("and", arr(vec![JsonValue::Bool(true), s(""), var("x")])));
    let (_, o) = eval_begin(&logic, &obj(vec![]), &RLogicConfig::new());
    assert!(json_eq(value_of(&o), &s("")));
}

#[test]
fn arithmetic_is_asked_for_and_the_answer_is_used() {
    let logic = compile(&op("+", arr(vec![num("1"), var("a")])));
    let data = obj(vec![("a", num("2"))]);
    let cfg = RLogicConfig::new();
    let (state, o) = eval_begin(&logic, &data, &cfg);
    match &o {
        EvalOutcome::Need(EvalRequest::Apply(tag, kids, items)) => {
            assert_eq!(*tag, Tag::Add);
            assert!(kids.is_empty());
            assert_eq!(items.len(), 2);
            assert!(json_eq(&items[0], &num("1")));
            assert!(json_eq(&items[1], &num("2")));
        },
        other => panic!("expected a request, got {:?}", other),
    }
    let (state, o) = eval_step(&logic, &data, &cfg, state, num("3"));
    assert_eq!(state.answers.len(), 1);
    assert!(json_eq(value_of(&o), &num("3")));
}

#[test]
fn map_and_filter_run_over_each_element() {
    let cfg = RLogicConfig::new();
    let data = obj(vec![("xs", arr(vec![num("1"), num("0"), s("a")]))]);
    let filter = compile(&op("filter", arr(vec![var("xs"), var("")])));
    let (_, o) = eval_begin(&filter, &data, &cfg);
    assert!(json_eq(value_of(&o), &arr(vec![num("1"), s("a")])));
    let map = compile(&op("map", arr(vec![var("xs"), op("!", arr(vec![var("")]))])));
    let (_, o) = eval_begin(&map, &data, &cfg);
    assert!(json_eq(value_of(&o), &arr(vec![JsonValue::Bool(false), JsonValue::Bool(true), JsonValue::Bool(false)])));
}

#[test]
fn reduce_asks_once_per_element() {
    let logic = compile(&op(
        "reduce",
        arr(vec![var("xs"), op("+", arr(vec![var("current"), var("accumulator")])), num("0")]),
    ));
    let data = obj(vec![("xs", arr(vec![num("1"), num("2")]))]);
    let cfg = RLogicConfig::new();
    let (state, o) = eval_begin(&logic, &data, &cfg);
    assert!(matches!(o, EvalOutcome::Need(EvalRequest::Apply(Tag::Add, _, _))));
    let (state, o) = eval_step(&logic, &data, &cfg, state, num("1"));
    assert!(matches!(o, EvalOutcome::Need(EvalRequest::Apply(Tag::Add, _, _))));
    let (_, o) = eval_step(&logic, &data, &cfg, state, num("3"));
    assert!(json_eq(value_of(&o), &num("3")));
}

#[test]
fn missing_lists_the_absent_keys() {
    let logic = compile(&op("missing", arr(vec![s("a"), s("b.c"), s("d")])));
    let data = obj(vec![("a", num("1")), ("b", obj(vec![("c", JsonValue::Null)]))]);
    let (_, o) = eval_begin(&logic, &data, &RLogicConfig::new());
    assert!(json_eq(value_of(&o), &arr(vec![s("b.c"), s("d")])));
}

#[test]
fn merge_flattens_one_level() {
    let logic = compile(&op("merge", arr(vec![arr(vec![num("1"), num("2")]), num("3")])));
    let (_, o) = eval_begin(&logic, &JsonValue::Null, &RLogicConfig::new());
    assert!(json_eq(value_of(&o), &arr(vec![num("1"), num("2"), num("3")])));
}

#[test]
fn strict_equality_compares_values_exactly() {
    let cfg = RLogicConfig::new();
    let same = compile(&op("===", arr(vec![s("1"), s("1")])));
    let (_, o) = eval_begin(&same, &JsonValue::Null, &cfg);
    assert!(json_eq(value_of(&o), &JsonValue::Bool(true)));
    let differ = compile(&op("===", arr(vec![s("1"), num("1")])));
    let (_, o) = eval_begin(&differ, &JsonValue::Null, &cfg);
    assert!(json_eq(value_of(&o), &JsonValue::Bool(false)));
}

#[test]
fn recursion_limit_is_an_error() {
    let logic = compile(&op("merge", arr(vec![op("if", arr(vec![var("x"), num("1"), num("2")]))])));
    let cfg = RLogicConfig::new().with_recursion_limit(1);
    let (_, o) = eval_begin(&logic, &JsonValue::Null, &cfg);
    match o {
        EvalOutcome::Failed(m) => assert_eq!(m, "Recursion limit exceeded"),
        other => panic!("expected an error, got {:?}", other),
    }
}

#[test]
fn truthiness_of_number_text() {
    assert!(!is_truthy(&num("0")));
    assert!(!is_truthy(&num("-0.000e5")));
    assert!(is_truthy(&num("0.01")));
    assert!(!is_truthy(&s("")));
    assert!(is_truthy(&obj(vec![])));
}
