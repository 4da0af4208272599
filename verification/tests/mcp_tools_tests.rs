use run::ast::{ArgMetadata, ArgType, Attribute, Parameter};
use run::mcp::tools::{extract_function_metadata, get_builtin_tools, sanitise_property_key, TOOL_GET_CWD, TOOL_SET_CWD};

#[test]
fn test_sanitise_property_key_valid() {
    let (key, optional) = sanitise_property_key("repo");
    assert_eq!(key, "repo");
    assert!(!optional);
}

#[test]
fn test_sanitise_property_key_question_mark_optional() {
    let (key, optional) = sanitise_property_key("repo?");
    assert_eq!(key, "repo");
    assert!(optional);
}

#[test]
fn test_sanitise_property_key_invalid_chars_replaced() {
    let (key, optional) = sanitise_property_key("my arg");
    assert_eq!(key, "my_arg");
    assert!(!optional);
}

#[test]
fn test_sanitise_property_key_invalid_chars_with_question_mark() {
    let (key, optional) = sanitise_property_key("my arg?");
    assert_eq!(key, "my_arg");
    assert!(optional);
}

#[test]
fn test_sanitise_property_key_truncated_to_64() {
    let long_name = "a".repeat(70);
    let (key, optional) = sanitise_property_key(&long_name);
    assert_eq!(key.len(), 64);
    assert!(!optional);
}

#[test]
fn test_sanitise_property_key_valid_chars() {
    // All valid chars: alphanumeric, underscore, dot, hyphen
    let (key, optional) = sanitise_property_key("my-arg.v2_0");
    assert_eq!(key, "my-arg.v2_0");
    assert!(!optional);
}

#[test]
fn test_extract_function_metadata_optional_arg() {

    let attributes = vec![
        Attribute::Desc("Get repo info".to_string()),
        Attribute::Arg(ArgMetadata {
            position: 1,
            name: "repo?".to_string(),
            arg_type: ArgType::String,
            description: "Optional repo name".to_string(),
        }),
    ];

    let tool = extract_function_metadata("get_info", &attributes, &[]).unwrap();

    // Property key should have `?` stripped
    assert!(tool.input_schema.properties.contains_key("repo"));
    assert!(!tool.input_schema.properties.contains_key("repo?"));

    // Optional arg must not appear in required
    assert!(!tool.input_schema.required.contains(&"repo".to_string()));
    assert!(tool.input_schema.required.is_empty());
}

#[test]
fn test_extract_function_metadata_mixed_optional_required() {

    let attributes = vec![
        Attribute::Desc("Clone a repo".to_string()),
        Attribute::Arg(ArgMetadata {
            position: 1,
            name: "url".to_string(),
            arg_type: ArgType::String,
            description: "Repository URL".to_string(),
        }),
        Attribute::Arg(ArgMetadata {
            position: 2,
            name: "branch?".to_string(),
            arg_type: ArgType::String,
            description: "Optional branch".to_string(),
        }),
    ];

    let tool = extract_function_metadata("clone", &attributes, &[]).unwrap();

    assert_eq!(tool.input_schema.properties.len(), 2);
    assert!(tool.input_schema.properties.contains_key("url"));
    assert!(tool.input_schema.properties.contains_key("branch"));
    assert!(!tool.input_schema.properties.contains_key("branch?"));

    // Only url should be required
    assert_eq!(tool.input_schema.required.len(), 1);
    assert!(tool.input_schema.required.contains(&"url".to_string()));
    assert!(!tool.input_schema.required.contains(&"branch".to_string()));
}

#[test]
fn test_extract_function_metadata_optional_arg_description_in_hybrid_mode() {

    // Hybrid: @arg with `?` suffix providing description for param "repo"
    let attributes = vec![
        Attribute::Desc("Get info".to_string()),
        Attribute::Arg(ArgMetadata {
            position: 0,
            name: "repo?".to_string(),
            arg_type: ArgType::String,
            description: "Optional repo name".to_string(),
        }),
    ];

    let params = vec![Parameter {
        name: "repo".to_string(),
        param_type: ArgType::String,
        default_value: None,
        is_rest: false,
    }];

    let tool = extract_function_metadata("get_info", &attributes, &params).unwrap();

    // Description should be picked up even with `?` in @arg name
    let repo_param = tool.input_schema.properties.find("repo").unwrap();
    assert_eq!(repo_param.description, "Optional repo name");
}

#[test]
fn test_get_builtin_tools() {
    let tools = get_builtin_tools();
    assert_eq!(tools.len(), 2);

    let set_cwd = tools
        .iter()
        .find(|t| t.name == TOOL_SET_CWD)
        .expect("set_cwd tool should exist");
    assert_eq!(
        set_cwd.description,
        "Set the current working directory. Call this before other tools to change their execution context."
    );
    assert_eq!(set_cwd.input_schema.schema_type, "object");
    assert!(set_cwd.input_schema.properties.contains_key("path"));
    assert_eq!(set_cwd.input_schema.properties.find("path").unwrap().param_type, "string");
    assert_eq!(set_cwd.input_schema.required, vec!["path".to_string()]);

    let get_cwd = tools
        .iter()
        .find(|t| t.name == TOOL_GET_CWD)
        .expect("get_cwd tool should exist");
    assert_eq!(get_cwd.description, "Get the current working directory.");
    assert_eq!(get_cwd.input_schema.schema_type, "object");
    assert!(get_cwd.input_schema.properties.is_empty());
    assert!(get_cwd.input_schema.required.is_empty());
}
