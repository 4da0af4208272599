use run::graph::{resolve_dependencies, resolve_dependency_stages};
use run::table::Table;

fn graph(edges: &[(&str, &[&str])]) -> Table<Vec<String>> {
    let mut t: Table<Vec<String>> = Table::new();
    for (name, deps) in edges {
        t.insert(name.to_string(), deps.iter().map(|d| d.to_string()).collect());
    }
    t
}

#[test]
fn test_resolve_stages_single_task() {
    let deps = graph(&[]);
    let stages = resolve_dependency_stages("build", &deps).unwrap();
    assert_eq!(stages, vec![vec!["build".to_string()]]);
}

#[test]
fn test_resolve_stages_linear() {
    // deploy -> build -> clean
    let deps = graph(&[("deploy", &["build"]), ("build", &["clean"])]);
    let stages = resolve_dependency_stages("deploy", &deps).unwrap();
    assert_eq!(
        stages,
        vec![vec!["clean".to_string()], vec!["build".to_string()], vec!["deploy".to_string()]]
    );
}

#[test]
fn test_resolve_stages_diamond() {
    let deps = graph(&[("a", &["b", "c"]), ("b", &["d"]), ("c", &["d"])]);
    let stages = resolve_dependency_stages("a", &deps).unwrap();
    assert_eq!(
        stages,
        vec![vec!["d".to_string()], vec!["b".to_string(), "c".to_string()], vec!["a".to_string()]]
    );
}

#[test]
fn test_resolve_stages_unbalanced() {
    let deps = graph(&[("a", &["b", "c"]), ("b", &["b1"]), ("b1", &["b2"])]);
    let stages = resolve_dependency_stages("a", &deps).unwrap();
    assert_eq!(
        stages,
        vec![
            vec!["b2".to_string(), "c".to_string()],
            vec!["b1".to_string()],
            vec!["b".to_string()],
            vec!["a".to_string()],
        ]
    );
}

#[test]
fn test_resolve_stages_cycle_detected() {
    let deps = graph(&[("a", &["b"]), ("b", &["a"])]);
    let err = resolve_dependency_stages("a", &deps).unwrap_err();
    assert!(err.contains("Circular dependency detected"));
}

#[test]
fn resolve_order_puts_dependencies_first() {
    let deps = graph(&[("deploy", &["build", "test"]), ("test", &["build"]), ("build", &["clean"])]);
    let order = resolve_dependencies("deploy", &deps).unwrap();
    assert_eq!(order, vec!["clean".to_string(), "build".to_string(), "test".to_string(), "deploy".to_string()]);
}

#[test]
fn resolve_order_reports_the_task_on_the_cycle() {
    let deps = graph(&[("a", &["b"]), ("b", &["c"]), ("c", &["b"])]);
    let err = resolve_dependencies("a", &deps).unwrap_err();
    assert!(err.starts_with("Circular dependency detected involving task '"));
}

#[test]
fn resolve_order_of_task_without_dependencies_is_itself() {
    let deps = graph(&[("other", &["x"])]);
    assert_eq!(resolve_dependencies("alone", &deps).unwrap(), vec!["alone".to_string()]);
}

#[test]
fn resolve_order_follows_the_depth_first_visit() {
    let deps = graph(&[("t", &["b", "a"]), ("b", &["c"]), ("a", &["c"])]);
    let order = resolve_dependencies("t", &deps).unwrap();
    assert_eq!(order, vec!["c".to_string(), "b".to_string(), "a".to_string(), "t".to_string()]);
}

#[test]
fn cycle_error_names_the_task_found_again() {
    let deps = graph(&[("a", &["b"]), ("b", &["c"]), ("c", &["b"])]);
    assert_eq!(resolve_dependencies("a", &deps).unwrap_err(), "Circular dependency detected involving task 'b'");
    assert_eq!(resolve_dependency_stages("a", &deps).unwrap_err(), "Circular dependency detected involving task 'b'");
}
