use indexmap::{IndexMap, IndexSet};
use json_eval_rs::schema_graph::{schema_dependency_graph, topological_sort_schema};

fn set(xs: &[&str]) -> IndexSet<String> {
    xs.iter().map(|s| s.to_string()).collect()
}

fn items(s: &IndexSet<String>) -> Vec<String> {
    s.iter().cloned().collect()
}

fn sample() -> (IndexSet<String>, IndexMap<String, IndexSet<String>>, IndexSet<String>) {
    let keys = set(&[
        "#/$params/a",
        "#/$params/b",
        "#/$params/TBL/$table/0/x",
        "#/$params/c/value",
        "#/$params/d",
        "#/$params/f/x",
    ]);
    let mut deps: IndexMap<String, IndexSet<String>> = IndexMap::new();
    deps.insert("#/$params/a".to_string(), set(&["/$params/b"]));
    deps.insert("#/$params/TBL/$table/0/x".to_string(), set(&["$col", "/$params/a", "#/$params/OTHER"]));
    deps.insert("#/$params/c/value".to_string(), set(&["/$params/a"]));
    deps.insert("#/$params/d".to_string(), set(&["#/$params/TBL", "/$params/f"]));
    let tables = set(&["#/$params/TBL", "#/$params/OTHER"]);
    (keys, deps, tables)
}

#[test]
fn graph_merges_tables_and_resolves_dependencies() {
    let (keys, deps, tables) = sample();
    let g = schema_dependency_graph(&keys, &deps, &tables);
    assert_eq!(g.len(), 5);
    assert_eq!(items(&g["#/$params/TBL"]), vec!["#/$params/a", "#/$params/OTHER"]);
    assert_eq!(items(&g["#/$params/a"]), vec!["#/$params/b"]);
    assert!(g["#/$params/b"].is_empty());
    assert_eq!(items(&g["#/$params/d"]), vec!["#/$params/TBL", "#/$params/f/x"]);
    assert!(g["#/$params/f/x"].is_empty());
    assert!(!g.contains_key("#/$params/c/value"));
    assert!(!g.contains_key("#/$params/TBL/$table/0/x"));
}

#[test]
fn schema_orders_in_batches() {
    let (keys, deps, tables) = sample();
    let batches = topological_sort_schema(&keys, &deps, &tables).unwrap();
    let expected: Vec<Vec<String>> = vec![
        vec!["#/$params/b".to_string(), "#/$params/f/x".to_string()],
        vec!["#/$params/a".to_string()],
        vec!["#/$params/TBL".to_string()],
        vec!["#/$params/d".to_string()],
    ];
    assert_eq!(batches, expected);
}

#[test]
fn schema_cycle_is_an_error() {
    let keys = set(&["#/$params/p", "#/$params/q"]);
    let mut deps: IndexMap<String, IndexSet<String>> = IndexMap::new();
    deps.insert("#/$params/p".to_string(), set(&["/$params/q"]));
    deps.insert("#/$params/q".to_string(), set(&["/$params/p"]));
    let err = topological_sort_schema(&keys, &deps, &set(&[])).unwrap_err();
    assert!(err.starts_with("Circular dependency detected involving: "));
}

#[test]
fn table_drops_references_to_itself() {
    let keys = set(&["#/$params/T/$table/0/x"]);
    let mut deps: IndexMap<String, IndexSet<String>> = IndexMap::new();
    deps.insert(
        "#/$params/T/$table/0/x".to_string(),
        set(&["/$params/T", "#/$params/T", "$row", "/$params/U"]),
    );
    let g = schema_dependency_graph(&keys, &deps, &set(&["#/$params/T"]));
    assert_eq!(g.len(), 1);
    assert_eq!(items(&g["#/$params/T"]), vec!["/$params/U"]);
}
