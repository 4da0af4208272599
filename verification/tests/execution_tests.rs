use run::interpreter::execution::{build_combined_script, collect_rewritable_siblings};
use run::interpreter::FunctionMetadata;
use run::table::Table;
use run::transpiler::Interpreter as TranspilerInterpreter;
use run::utils::HostPlatform;

#[test]
fn test_build_combined_script_no_preambles() {
    let result = build_combined_script(String::new(), String::new(), "echo hello".to_string(), true);
    assert_eq!(result, "__run__() {\necho hello\n}\n__run__ \"$@\"");
}

#[test]
fn test_build_combined_script_var_preamble_only() {
    let result =
        build_combined_script("MY_VAR=\"value\"".to_string(), String::new(), "echo $MY_VAR".to_string(), true);
    assert_eq!(result, "MY_VAR=\"value\"\n__run__() {\necho $MY_VAR\n}\n__run__ \"$@\"");
}

#[test]
fn test_build_combined_script_func_preamble_only() {
    let result = build_combined_script(
        String::new(),
        "helper() {\n    echo help\n}".to_string(),
        "helper".to_string(),
        true,
    );
    assert_eq!(result, "helper() {\n    echo help\n}\n__run__() {\nhelper\n}\n__run__ \"$@\"");
}

#[test]
fn test_build_combined_script_both_preambles() {
    let result =
        build_combined_script("VAR=\"x\"".to_string(), "fn() { echo; }".to_string(), "fn $VAR".to_string(), true);
    assert_eq!(result, "VAR=\"x\"\nfn() { echo; }\n__run__() {\nfn $VAR\n}\n__run__ \"$@\"");
}

#[test]
fn test_build_combined_script_wraps_body_with_return() {
    let result = build_combined_script(
        String::new(),
        String::new(),
        "if [ \"$1\" = \"fail\" ]; then\n    return 1\nfi\necho ok".to_string(),
        true,
    );
    assert!(result.contains("__run__() {"));
    assert!(result.contains("return 1"));
    assert!(result.ends_with("__run__ \"$@\""));
}

#[test]
fn test_build_combined_script_no_wrap_for_polyglot() {
    let result = build_combined_script("x = 42".to_string(), String::new(), "print(x)".to_string(), false);
    assert_eq!(result, "x = 42\nprint(x)");
    assert!(!result.contains("__run__"));
}

#[test]
fn test_collect_rewritable_siblings_empty() {
    let simple: Table<String> = Table::new();
    let block: Table<Vec<String>> = Table::new();
    let metadata: Table<FunctionMetadata> = Table::new();
    let result = collect_rewritable_siblings(
        "target",
        &TranspilerInterpreter::Sh,
        &simple,
        &block,
        &metadata,
        TranspilerInterpreter::default_for(HostPlatform::Linux),
    );
    assert!(result.is_empty());
}

#[test]
fn test_collect_rewritable_siblings_with_compatible() {
    let mut simple: Table<String> = Table::new();
    simple.insert("helper".to_string(), "echo help".to_string());
    simple.insert("target".to_string(), "echo target".to_string());
    let block: Table<Vec<String>> = Table::new();
    let mut metadata: Table<FunctionMetadata> = Table::new();
    metadata.insert(
        "helper".to_string(),
        FunctionMetadata { attributes: vec![], shebang: None, params: vec![] },
    );
    let result = collect_rewritable_siblings(
        "target",
        &TranspilerInterpreter::Sh,
        &simple,
        &block,
        &metadata,
        TranspilerInterpreter::Sh,
    );
    assert!(result.contains(&"helper".to_string()));
    assert!(!result.contains(&"target".to_string()));
}
