use indexmap::{IndexMap, IndexSet};
use json_eval_rs::topo_sort::{collect_transitive_deps, compute_parallel_batches, sort_in_phases, visit_node, visit_node_with_priority};

fn set(xs: &[&str]) -> IndexSet<String> {
    xs.iter().map(|s| s.to_string()).collect()
}

fn graph(edges: &[(&str, &[&str])]) -> IndexMap<String, IndexSet<String>> {
    edges.iter().map(|(k, ds)| (k.to_string(), set(ds))).collect()
}

#[test]
fn visit_orders_dependencies_first() {
    let g = graph(&[("a", &["b", "x"]), ("b", &["c"]), ("c", &[])]);
    let (mut visited, mut visiting, mut sorted) = (IndexSet::new(), IndexSet::new(), IndexSet::new());
    visit_node("a", &g["a"], &g, &mut visited, &mut visiting, &mut sorted).unwrap();
    assert_eq!(sorted.iter().cloned().collect::<Vec<_>>(), vec!["c", "b", "a"]);
    assert!(visiting.is_empty());
    assert_eq!(visited.len(), 3);
    // visiting again changes nothing
    visit_node("b", &g["b"], &g, &mut visited, &mut visiting, &mut sorted).unwrap();
    assert_eq!(sorted.len(), 3);
}

#[test]
fn visit_reports_cycles() {
    let g = graph(&[("a", &["b"]), ("b", &["a"])]);
    let (mut visited, mut visiting, mut sorted) = (IndexSet::new(), IndexSet::new(), IndexSet::new());
    let err = visit_node("a", &g["a"], &g, &mut visited, &mut visiting, &mut sorted).unwrap_err();
    assert_eq!(err, "Circular dependency detected involving: a");
    assert!(sorted.is_empty());
}

#[test]
fn priority_visits_non_tables_first() {
    let g = graph(&[("root", &["t2", "z", "t1", "m"]), ("t1", &[]), ("t2", &[]), ("z", &[]), ("m", &[])]);
    let tables = set(&["t1", "t2"]);
    let (mut visited, mut visiting, mut sorted) = (IndexSet::new(), IndexSet::new(), IndexSet::new());
    visit_node_with_priority("root", &g["root"], &g, &mut visited, &mut visiting, &mut sorted, &tables).unwrap();
    assert_eq!(sorted.iter().cloned().collect::<Vec<_>>(), vec!["m", "z", "t1", "t2", "root"]);
}

#[test]
fn transitive_deps_skip_tables_and_repeats() {
    let g = graph(&[("a", &["b", "t"]), ("b", &["c", "a"]), ("c", &[]), ("t", &["d"])]);
    let tables = set(&["t"]);
    let mut result = set(&["seed"]);
    collect_transitive_deps(&set(&["a", "t", "e"]), &g, &tables, &mut result);
    assert_eq!(result.iter().cloned().collect::<Vec<_>>(), vec!["seed", "a", "b", "c", "e"]);
}

#[test]
fn batches_follow_dependency_levels() {
    let sorted = set(&["c", "b", "a", "T", "x", "y", "z", "w"]);
    let g = graph(&[
        ("b", &["c"]),
        ("a", &["b", "external"]),
        ("T", &["a"]),
        ("x", &["T/$table/0/col"]),
        ("y", &[]),
        ("z", &["w"]),
    ]);
    let tables = set(&["T"]);
    let batches = compute_parallel_batches(&sorted, &g, &tables);
    let expected: Vec<Vec<String>> = vec![
        vec!["c".to_string(), "y".to_string(), "z".to_string(), "w".to_string()],
        vec!["b".to_string()],
        vec!["a".to_string()],
        vec!["T".to_string()],
        vec!["x".to_string()],
    ];
    assert_eq!(batches, expected);
}

#[test]
fn batches_of_nothing_are_empty() {
    let batches = compute_parallel_batches(&set(&[]), &graph(&[]), &set(&[]));
    assert!(batches.is_empty());
}

#[test]
fn skip_flag_waits_for_its_table() {
    let sorted = set(&["/T", "/T/$skip", "n"]);
    let g = graph(&[("n", &["/T/$skip"]), ("/T/$skip", &[])]);
    let batches = compute_parallel_batches(&sorted, &g, &set(&["/T"]));
    // "/T/$skip" is itself sorted, so it counts by its own batch
    assert_eq!(batches, vec![vec!["/T".to_string(), "/T/$skip".to_string()], vec!["n".to_string()]]);
    let sorted = set(&["/T", "n"]);
    let g = graph(&[("n", &["/T/$clear"])]);
    let batches = compute_parallel_batches(&sorted, &g, &set(&["/T"]));
    assert_eq!(batches, vec![vec!["/T".to_string()], vec!["n".to_string()]]);
}

#[test]
fn phases_put_table_needs_first() {
    let g = graph(&[("T", &["a"]), ("a", &["b"]), ("b", &[]), ("c", &["T"]), ("d", &[])]);
    let batches = sort_in_phases(&g, &set(&["T"])).unwrap();
    let expected: Vec<Vec<String>> = vec![
        vec!["b".to_string(), "d".to_string()],
        vec!["a".to_string()],
        vec!["T".to_string()],
        vec!["c".to_string()],
    ];
    assert_eq!(batches, expected);
}

#[test]
fn phases_report_cycles() {
    let g = graph(&[("x", &["y"]), ("y", &["x"])]);
    let err = sort_in_phases(&g, &set(&[])).unwrap_err();
    assert_eq!(err, "Circular dependency detected involving: x");
}
