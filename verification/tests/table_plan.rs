use json_eval_rs::compiled::LogicId;
use json_eval_rs::compiled_logic_store::SharedLogicStore;
use json_eval_rs::data_wrapper::TrackedData;
use json_eval_rs::json::JsonValue;
use json_eval_rs::logic_store::CompiledLogicStore;
use json_eval_rs::table_plan::{
    forward_columns, plan_table, table_begin, table_path_of, table_step, RowPlan, TableEvent, TableRequest, TableWrite,
};

fn num(n: &str) -> JsonValue {
    JsonValue::Number(n.to_string())
}

fn s(x: &str) -> JsonValue {
    JsonValue::String(x.to_string())
}

fn obj(es: Vec<(&str, JsonValue)>) -> JsonValue {
    JsonValue::Object(es.into_iter().map(|(k, v)| (k.to_string(), v)).collect())
}

fn arr(v: Vec<JsonValue>) -> JsonValue {
    JsonValue::Array(v)
}

fn op(name: &str, args: JsonValue) -> JsonValue {
    obj(vec![(name, args)])
}

fn var(name: &str) -> JsonValue {
    op("var", s(name))
}

fn apply(scope: &mut TrackedData, w: TableWrite) {
    match w {
        TableWrite::Put(p, v) => {
            scope.set(&p, v);
        }
        TableWrite::SetInt(p, i) => {
            scope.set(&p, JsonValue::Number(i.to_string()));
        }
        TableWrite::PushRow(p, row) => {
            scope.push_to_array(&p, JsonValue::Object(row));
        }
        TableWrite::AppendRows(p, n) => {
            let mut rows = match scope.get(&p) {
                Some(JsonValue::Array(a)) => a.clone(),
                _ => Vec::new(),
            };
            for _ in 0..n {
                rows.push(JsonValue::Object(Vec::new()));
            }
            scope.set(&p, JsonValue::Array(rows));
        }
        TableWrite::SetCell(p, idx, k, v) => {
            if let Some(JsonValue::Array(a)) = scope.get(&p) {
                let mut rows = a.clone();
                if let Some(JsonValue::Object(es)) = rows.get_mut(idx as usize) {
                    match es.iter_mut().find(|e| e.0 == k) {
                        Some(e) => e.1 = v,
                        None => es.push((k, v)),
                    }
                }
                scope.set(&p, JsonValue::Array(rows));
            }
        }
        TableWrite::MarkModified(p) => {
            scope.mark_modified(&p);
        }
        TableWrite::Restore(p, idx, names) => {
            let row = match scope.get(&p) {
                Some(JsonValue::Array(a)) => a.get(idx as usize).cloned(),
                _ => None,
            };
            if let Some(JsonValue::Object(es)) = row {
                for n in names {
                    if let Some(e) = es.iter().find(|e| e.0 == n) {
                        scope.set(&format!("${}", n), e.1.clone());
                    }
                }
            }
        }
    }
}

/// Runs a table whose logic all reads `$iteration`.
fn run(table: &JsonValue, evs: &Vec<(String, LogicId)>, store: &CompiledLogicStore) -> Result<Vec<JsonValue>, String> {
    let plan = plan_table("#/T", table, evs, store)?;
    let mut scope = TrackedData::new(JsonValue::Object(Vec::new()), 0);
    let (mut state, mut action) = table_begin(&plan);
    loop {
        for w in action.writes {
            apply(&mut scope, w);
        }
        let event = match action.request {
            TableRequest::Evaluate(_, _) => match scope.get("$iteration") {
                Some(v) => TableEvent::Value(v.clone()),
                None => TableEvent::Failed("no iteration".to_string()),
            },
            TableRequest::ToInteger(JsonValue::Number(n)) => TableEvent::Integer(n.parse().unwrap()),
            TableRequest::ToInteger(_) => TableEvent::Integer(0),
            TableRequest::Continue => TableEvent::Continue,
            TableRequest::FinishRows => {
                return Ok(match scope.get(&plan.path) {
                    Some(JsonValue::Array(a)) => a.clone(),
                    _ => Vec::new(),
                })
            }
            TableRequest::FinishEmpty => return Ok(Vec::new()),
            TableRequest::Fail(e) => return Err(e),
        };
        let (st, act) = table_step(&plan, state, event);
        state = st;
        action = act;
    }
}

#[test]
fn table_without_rows_is_refused() {
    let store = CompiledLogicStore::new();
    let r = plan_table("#/T", &obj(vec![("rows", num("3"))]), &Vec::new(), &store);
    assert_eq!(r.err(), Some("table missing rows".to_string()));
}

#[test]
fn table_path_drops_hash_prefixes() {
    assert_eq!(table_path_of("#/#/$params/T"), "$params.T");
    assert_eq!(table_path_of("a/b"), "a.b");
}

#[test]
fn static_and_repeated_rows_are_evaluated() {
    let mut shared = SharedLogicStore::new();
    let mut store = CompiledLogicStore::new();
    let id = store.compile(&mut shared, &var("$iteration")).unwrap();
    let evs = vec![("#/T/$table/1/$repeat/2/n".to_string(), id)];
    let table = obj(vec![
        (
            "rows",
            arr(vec![
                obj(vec![("a", num("1")), ("b", s("x"))]),
                obj(vec![("$repeat", arr(vec![num("1"), num("3"), obj(vec![("n", num("0")), ("m", num("5"))])]))]),
            ]),
        ),
        ("datas", arr(vec![obj(vec![("name", s("d")), ("data", num("7"))])])),
    ]);
    let plan = plan_table("#/T", &table, &evs, &store).unwrap();
    assert_eq!(plan.rows.len(), 2);
    assert!(matches!(plan.rows[0], RowPlan::Static { .. }));
    assert_eq!(plan.datas.len(), 1);
    let rows = run(&table, &evs, &store).unwrap();
    let expected = vec![
        obj(vec![("a", num("1")), ("b", s("x"))]),
        obj(vec![("n", num("1")), ("m", num("5"))]),
        obj(vec![("n", num("2")), ("m", num("5"))]),
        obj(vec![("n", num("3")), ("m", num("5"))]),
    ];
    assert_eq!(format!("{:?}", rows), format!("{:?}", expected));
}

#[test]
fn empty_repeat_adds_no_rows() {
    let store = CompiledLogicStore::new();
    let table = obj(vec![(
        "rows",
        arr(vec![obj(vec![("$repeat", arr(vec![num("3"), num("1"), obj(vec![("m", num("5"))])]))])]),
    )]);
    assert!(run(&table, &Vec::new(), &store).unwrap().is_empty());
}

#[test]
fn skipped_table_gives_nothing() {
    let store = CompiledLogicStore::new();
    let table = obj(vec![("rows", arr(vec![obj(vec![("a", num("1"))])])), ("skip", JsonValue::Bool(true))]);
    assert!(run(&table, &Vec::new(), &store).unwrap().is_empty());
}

#[test]
fn forward_flag_spreads_to_readers() {
    let mut shared = SharedLogicStore::new();
    let mut store = CompiledLogicStore::new();
    let next = op("VALUEAT", arr(vec![var("T"), op("+", arr(vec![var("$iteration"), num("1")])), s("n")]));
    let fwd = store.compile(&mut shared, &next).unwrap();
    let reader = store.compile(&mut shared, &op("+", arr(vec![var("$f"), num("1")]))).unwrap();
    let plain = store.compile(&mut shared, &var("$iteration")).unwrap();
    let evs = vec![
        ("#/T/$table/0/$repeat/2/n".to_string(), plain),
        ("#/T/$table/0/$repeat/2/f".to_string(), fwd),
        ("#/T/$table/0/$repeat/2/g".to_string(), reader),
    ];
    let table = obj(vec![(
        "rows",
        arr(vec![obj(vec![(
            "$repeat",
            arr(vec![num("1"), num("2"), obj(vec![("n", num("0")), ("f", num("0")), ("g", num("0"))])]),
        )])]),
    )]);
    let plan = plan_table("#/T", &table, &evs, &store).unwrap();
    match &plan.rows[0] {
        RowPlan::Repeat { columns, .. } => {
            assert!(columns[1].has_forward_ref);
            assert_eq!(columns[2].dependencies, vec!["$f".to_string()]);
            assert_eq!(forward_columns(columns), vec![false, true, true]);
        }
        _ => panic!("repeat"),
    }
}
