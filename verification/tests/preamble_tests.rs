use run::ast::{ArgType, Attribute, Parameter, ShellType};
use run::interpreter::preamble::{
    build_function_preamble, build_polyglot_arg_preamble, build_variable_preamble, collect_compatible_siblings,
    collect_incompatible_colon_siblings,
};
use run::interpreter::FunctionMetadata;
use run::table::Table;
use run::transpiler::Interpreter as TranspilerInterpreter;

#[test]
fn test_build_variable_preamble_empty() {
    let vars = Table::new();
    assert_eq!(
        build_variable_preamble(&vars, &TranspilerInterpreter::Sh),
        ""
    );
}

#[test]
fn test_build_variable_preamble_shell() {
    let mut vars = Table::new();
    vars.insert("MY_VAR".to_string(), "hello".to_string());
    let result = build_variable_preamble(&vars, &TranspilerInterpreter::Sh);
    assert_eq!(result, "MY_VAR=\"hello\"");
}

#[test]
fn test_build_variable_preamble_shell_with_special_chars() {
    let mut vars = Table::new();
    vars.insert("VAR".to_string(), "say \"hi\"".to_string());
    let result = build_variable_preamble(&vars, &TranspilerInterpreter::Bash);
    assert_eq!(result, "VAR=\"say \\\"hi\\\"\"");
}

#[test]
fn test_build_variable_preamble_pwsh() {
    let mut vars = Table::new();
    vars.insert("MY_VAR".to_string(), "hello".to_string());
    let result = build_variable_preamble(&vars, &TranspilerInterpreter::Pwsh);
    assert_eq!(result, "$MY_VAR = \"hello\"");
}

#[test]
fn test_build_variable_preamble_pwsh_with_special_chars() {
    let mut vars = Table::new();
    vars.insert("VAR".to_string(), "$env:PATH".to_string());
    let result = build_variable_preamble(&vars, &TranspilerInterpreter::Pwsh);
    assert_eq!(result, "$VAR = \"`$env:PATH\"");
}

#[test]
fn test_collect_compatible_siblings_empty() {
    let simple = Table::new();
    let block = Table::new();
    let metadata = Table::new();
    let resolve = TranspilerInterpreter::Sh;

    let result = collect_compatible_siblings(
        "target",
        &TranspilerInterpreter::Sh,
        &simple,
        &block,
        &metadata,
        resolve,
    );
    assert!(result.is_empty());
}

#[test]
fn test_collect_compatible_siblings_same_interpreter() {
    let mut simple = Table::new();
    simple.insert("helper".to_string(), "echo help".to_string());
    simple.insert("target".to_string(), "echo target".to_string());
    let block = Table::new();
    let metadata = Table::new();
    let resolve = TranspilerInterpreter::Sh;

    let result = collect_compatible_siblings(
        "target",
        &TranspilerInterpreter::Sh,
        &simple,
        &block,
        &metadata,
        resolve,
    );
    assert!(result.contains(&"helper".to_string()));
    assert!(!result.contains(&"target".to_string()));
}

#[test]
fn test_collect_compatible_siblings_with_blocks() {
    let simple = Table::new();
    let mut block = Table::new();
    block.insert(
        "block_helper".to_string(),
        vec!["echo step1".to_string(), "echo step2".to_string()],
    );
    let metadata = Table::new();
    let resolve = TranspilerInterpreter::Sh;

    let result = collect_compatible_siblings(
        "target",
        &TranspilerInterpreter::Sh,
        &simple,
        &block,
        &metadata,
        resolve,
    );
    assert!(result.contains(&"block_helper".to_string()));
}

#[test]
fn test_collect_incompatible_colon_siblings_empty() {
    let simple = Table::new();
    let block = Table::new();
    let metadata = Table::new();
    let resolve = TranspilerInterpreter::Sh;

    let result = collect_incompatible_colon_siblings(
        "target",
        &TranspilerInterpreter::Sh,
        &simple,
        &block,
        &metadata,
        resolve,
    );
    assert!(result.is_empty());
}

#[test]
fn test_collect_incompatible_colon_siblings_finds_colon_functions() {
    let mut simple = Table::new();
    simple.insert("node:hello".to_string(), "console.log('hi')".to_string());
    simple.insert("no_colon".to_string(), "echo hi".to_string());
    let block = Table::new();
    let mut metadata = Table::new();
    metadata.insert(
        "node:hello".to_string(),
        FunctionMetadata {
            attributes: vec![Attribute::Shell(ShellType::Node)],
            shebang: None,
            params: vec![],
        },
    );
    // Functions without an interpreter of their own run under sh.
    let resolve = TranspilerInterpreter::Sh;

    let result = collect_incompatible_colon_siblings(
        "target",
        &TranspilerInterpreter::Sh,
        &simple,
        &block,
        &metadata,
        resolve,
    );
    assert!(result.contains(&"node:hello".to_string()));
    assert!(!result.contains(&"no_colon".to_string()));
}

#[test]
fn test_build_function_preamble_empty() {
    let simple = Table::new();
    let block = Table::new();
    let metadata = Table::new();
    let resolve = TranspilerInterpreter::Sh;

    let result = build_function_preamble(
        "target",
        &TranspilerInterpreter::Sh,
        &simple,
        &block,
        &metadata,
        resolve,
    );
    assert!(result.is_empty());
}

#[test]
fn test_build_function_preamble_with_simple_sibling() {
    let mut simple = Table::new();
    simple.insert("helper".to_string(), "echo help".to_string());
    simple.insert("target".to_string(), "helper".to_string());
    let block = Table::new();
    let metadata = Table::new();
    let resolve = TranspilerInterpreter::Sh;

    let result = build_function_preamble(
        "target",
        &TranspilerInterpreter::Sh,
        &simple,
        &block,
        &metadata,
        resolve,
    );
    assert!(result.contains("helper()"));
    assert!(result.contains("echo help"));
}

#[test]
fn test_build_function_preamble_with_block_sibling() {
    let simple = Table::new();
    let mut block = Table::new();
    block.insert(
        "setup".to_string(),
        vec!["echo step1".to_string(), "echo step2".to_string()],
    );
    let metadata = Table::new();
    let resolve = TranspilerInterpreter::Sh;

    let result = build_function_preamble(
        "target",
        &TranspilerInterpreter::Sh,
        &simple,
        &block,
        &metadata,
        resolve,
    );
    assert!(result.contains("setup()"));
    assert!(result.contains("echo step1"));
}

#[test]
fn test_build_function_preamble_excludes_self() {
    let mut simple = Table::new();
    simple.insert("target".to_string(), "echo target".to_string());
    let block = Table::new();
    let metadata = Table::new();
    let resolve = TranspilerInterpreter::Sh;

    let result = build_function_preamble(
        "target",
        &TranspilerInterpreter::Sh,
        &simple,
        &block,
        &metadata,
        resolve,
    );
    assert!(result.is_empty());
}

#[test]
fn test_build_function_preamble_pwsh() {
    let mut simple = Table::new();
    simple.insert("helper".to_string(), "Write-Host help".to_string());
    simple.insert("target".to_string(), "helper".to_string());
    let block = Table::new();
    let metadata = Table::new();
    let resolve = TranspilerInterpreter::Pwsh;

    let result = build_function_preamble(
        "target",
        &TranspilerInterpreter::Pwsh,
        &simple,
        &block,
        &metadata,
        resolve,
    );
    assert!(result.contains("function helper"));
}

// --- Polyglot arg preamble tests ---

fn make_param(name: &str, default: Option<&str>, is_rest: bool) -> Parameter {
    Parameter {
        name: name.to_string(),
        param_type: ArgType::String,
        default_value: default.map(String::from),
        is_rest,
    }
}

fn make_typed_param(
    name: &str,
    arg_type: ArgType,
    default: Option<&str>,
) -> Parameter {
    Parameter {
        name: name.to_string(),
        param_type: arg_type,
        default_value: default.map(String::from),
        is_rest: false,
    }
}

#[test]
fn test_polyglot_preamble_empty_params() {
    let result = build_polyglot_arg_preamble(&[], &TranspilerInterpreter::Python);
    assert_eq!(result, "");
}

#[test]
fn test_polyglot_preamble_non_polyglot() {
    let params = vec![make_param("name", None, false)];
    let result = build_polyglot_arg_preamble(&params, &TranspilerInterpreter::Sh);
    assert_eq!(result, "");
}

#[test]
fn test_python_preamble_required_param() {
    let params = vec![make_param("name", None, false)];
    let result = build_polyglot_arg_preamble(&params, &TranspilerInterpreter::Python);
    assert!(result.contains("import sys"));
    assert!(result.contains("name = sys.argv[1]"));
}

#[test]
fn test_python_preamble_default_param() {
    let params = vec![
        make_param("name", None, false),
        make_param("greeting", Some("Hello"), false),
    ];
    let result = build_polyglot_arg_preamble(&params, &TranspilerInterpreter::Python);
    assert!(result.contains("name = sys.argv[1]"));
    assert!(result.contains("greeting = sys.argv[2] if len(sys.argv) > 2 else \"Hello\""));
}

#[test]
fn test_python_preamble_rest_param() {
    let params = vec![
        make_param("name", None, false),
        make_param("extra", None, true),
    ];
    let result = build_polyglot_arg_preamble(&params, &TranspilerInterpreter::Python);
    assert!(result.contains("name = sys.argv[1]"));
    assert!(result.contains("extra = sys.argv[2:]"));
}

#[test]
fn test_python_preamble_integer_type() {
    let params = vec![make_typed_param(
        "count",
        ArgType::Integer,
        None,
    )];
    let result = build_polyglot_arg_preamble(&params, &TranspilerInterpreter::Python);
    assert!(result.contains("count = int(sys.argv[1])"));
}

#[test]
fn test_python_preamble_boolean_type() {
    let params = vec![make_typed_param(
        "verbose",
        ArgType::Boolean,
        None,
    )];
    let result = build_polyglot_arg_preamble(&params, &TranspilerInterpreter::Python);
    assert!(result.contains("verbose = sys.argv[1].lower() in ('true', '1', 'yes')"));
}

#[test]
fn test_node_preamble_required_param() {
    let params = vec![make_param("name", None, false)];
    let result = build_polyglot_arg_preamble(&params, &TranspilerInterpreter::Node);
    assert!(result.contains("const name = process.argv[1];"));
}

#[test]
fn test_node_preamble_default_param() {
    let params = vec![
        make_param("name", None, false),
        make_param("greeting", Some("Hello"), false),
    ];
    let result = build_polyglot_arg_preamble(&params, &TranspilerInterpreter::Node);
    assert!(result.contains("const name = process.argv[1];"));
    assert!(
        result.contains(
            "const greeting = process.argv.length > 2 ? process.argv[2] : \"Hello\";"
        )
    );
}

#[test]
fn test_node_preamble_rest_param() {
    let params = vec![
        make_param("name", None, false),
        make_param("extra", None, true),
    ];
    let result = build_polyglot_arg_preamble(&params, &TranspilerInterpreter::Node);
    assert!(result.contains("const extra = process.argv.slice(2);"));
}

#[test]
fn test_node_preamble_integer_type() {
    let params = vec![make_typed_param(
        "count",
        ArgType::Integer,
        None,
    )];
    let result = build_polyglot_arg_preamble(&params, &TranspilerInterpreter::Node);
    assert!(result.contains("const count = parseInt(process.argv[1], 10);"));
}

#[test]
fn test_ruby_preamble_required_param() {
    let params = vec![make_param("name", None, false)];
    let result = build_polyglot_arg_preamble(&params, &TranspilerInterpreter::Ruby);
    assert!(result.contains("name = ARGV[0]"));
}

#[test]
fn test_ruby_preamble_default_param() {
    let params = vec![
        make_param("name", None, false),
        make_param("greeting", Some("Hello"), false),
    ];
    let result = build_polyglot_arg_preamble(&params, &TranspilerInterpreter::Ruby);
    assert!(result.contains("name = ARGV[0]"));
    assert!(result.contains("greeting = ARGV.length > 1 ? ARGV[1] : \"Hello\""));
}

#[test]
fn test_ruby_preamble_rest_param() {
    let params = vec![
        make_param("name", None, false),
        make_param("extra", None, true),
    ];
    let result = build_polyglot_arg_preamble(&params, &TranspilerInterpreter::Ruby);
    assert!(result.contains("extra = ARGV[1..]"));
}

#[test]
fn test_python3_preamble_works() {
    let params = vec![make_param("name", None, false)];
    let result = build_polyglot_arg_preamble(&params, &TranspilerInterpreter::Python3);
    assert!(result.contains("import sys"));
    assert!(result.contains("name = sys.argv[1]"));
}

#[test]
fn test_python_preamble_integer_default() {
    let params = vec![make_typed_param(
        "count",
        ArgType::Integer,
        Some("42"),
    )];
    let result = build_polyglot_arg_preamble(&params, &TranspilerInterpreter::Python);
    assert!(result.contains("int(sys.argv[1]) if len(sys.argv) > 1 else 42"));
}

#[test]
fn test_node_preamble_boolean_default() {
    let params = vec![make_typed_param(
        "verbose",
        ArgType::Boolean,
        Some("false"),
    )];
    let result = build_polyglot_arg_preamble(&params, &TranspilerInterpreter::Node);
    assert!(result.contains("const verbose = process.argv.length > 1 ? !['false', '0', ''].includes(process.argv[1].toLowerCase()) : false;"));
}

// --- Float type tests ---

#[test]
fn test_python_preamble_float_type() {
    let params = vec![make_typed_param("rate", ArgType::Float, None)];
    let result = build_polyglot_arg_preamble(&params, &TranspilerInterpreter::Python);
    assert!(result.contains("rate = float(sys.argv[1])"));
}

#[test]
fn test_python_preamble_float_default() {
    let params = vec![make_typed_param(
        "rate",
        ArgType::Float,
        Some("3.14"),
    )];
    let result = build_polyglot_arg_preamble(&params, &TranspilerInterpreter::Python);
    assert!(result.contains("float(sys.argv[1]) if len(sys.argv) > 1 else 3.14"));
}

#[test]
fn test_node_preamble_float_type() {
    let params = vec![make_typed_param("rate", ArgType::Float, None)];
    let result = build_polyglot_arg_preamble(&params, &TranspilerInterpreter::Node);
    assert!(result.contains("const rate = parseFloat(process.argv[1]);"));
}

#[test]
fn test_node_preamble_float_default() {
    let params = vec![make_typed_param(
        "rate",
        ArgType::Float,
        Some("3.14"),
    )];
    let result = build_polyglot_arg_preamble(&params, &TranspilerInterpreter::Node);
    assert!(result.contains(
        "const rate = process.argv.length > 1 ? parseFloat(process.argv[1]) : 3.14;"
    ));
}

#[test]
fn test_ruby_preamble_float_type() {
    let params = vec![make_typed_param("rate", ArgType::Float, None)];
    let result = build_polyglot_arg_preamble(&params, &TranspilerInterpreter::Ruby);
    assert!(result.contains("rate = ARGV[0].to_f"));
}

#[test]
fn test_ruby_preamble_float_default() {
    let params = vec![make_typed_param(
        "rate",
        ArgType::Float,
        Some("3.14"),
    )];
    let result = build_polyglot_arg_preamble(&params, &TranspilerInterpreter::Ruby);
    assert!(result.contains("rate = ARGV.length > 0 ? ARGV[0].to_f : 3.14"));
}

// --- Object type tests ---

#[test]
fn test_python_preamble_object_type() {
    let params = vec![make_typed_param(
        "config",
        ArgType::Object,
        None,
    )];
    let result = build_polyglot_arg_preamble(&params, &TranspilerInterpreter::Python);
    assert!(result.contains("import json"));
    assert!(result.contains("config = json.loads(sys.argv[1])"));
}

#[test]
fn test_python_preamble_object_no_json_import_without_object() {
    let params = vec![make_typed_param("name", ArgType::String, None)];
    let result = build_polyglot_arg_preamble(&params, &TranspilerInterpreter::Python);
    assert!(!result.contains("import json"));
}

#[test]
fn test_node_preamble_object_type() {
    let params = vec![make_typed_param(
        "config",
        ArgType::Object,
        None,
    )];
    let result = build_polyglot_arg_preamble(&params, &TranspilerInterpreter::Node);
    assert!(result.contains("const config = JSON.parse(process.argv[1]);"));
}

#[test]
fn test_ruby_preamble_object_type() {
    let params = vec![make_typed_param(
        "config",
        ArgType::Object,
        None,
    )];
    let result = build_polyglot_arg_preamble(&params, &TranspilerInterpreter::Ruby);
    assert!(result.contains("require 'json'"));
    assert!(result.contains("config = JSON.parse(ARGV[0])"));
}

#[test]
fn test_ruby_preamble_no_json_require_without_object() {
    let params = vec![make_typed_param("name", ArgType::String, None)];
    let result = build_polyglot_arg_preamble(&params, &TranspilerInterpreter::Ruby);
    assert!(!result.contains("require 'json'"));
}
