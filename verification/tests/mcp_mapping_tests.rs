use run::ast::{ArgType, Attribute, ParamView};
use run::mcp::handlers::{
    build_initialize_instructions, handle_tools_list, plan_tool_call, route_request, set_cwd_message, tool_call_result,
    Route, ToolCall,
};
use run::mcp::mapping::{map_arguments_to_positional, resolve_tool_name, value_to_string, JsonValue};
use run::mcp::tools::inspect;
use run::table::Table;
use run::utils::HostPlatform;

fn text(s: &str) -> JsonValue {
    JsonValue::String(s.to_string())
}

fn number(n: &str) -> JsonValue {
    JsonValue::Number(n.to_string())
}

fn object(members: Vec<(&str, JsonValue)>) -> JsonValue {
    let mut t: Table<JsonValue> = Table::new();
    for (k, v) in members {
        t.insert(k.to_string(), v);
    }
    JsonValue::Object(t, "{}".to_string())
}

fn array(items: Vec<JsonValue>, json: &str) -> JsonValue {
    JsonValue::Array(items, json.to_string())
}

// ---- resolve_tool_name ----

#[test]
fn test_resolve_tool_name_simple() {
    let runfile = "# @desc Deploy to environment\ndeploy(env: str) {\n    echo \"$env\"\n}\n";
    assert_eq!(resolve_tool_name(Some(runfile), "deploy").unwrap(), "deploy");
}

#[test]
fn test_resolve_tool_name_colon_sanitised() {
    let runfile = "# @desc Deploy to staging\ndeploy:staging(region: str) {\n    echo \"$region\"\n}\n";
    assert_eq!(resolve_tool_name(Some(runfile), "deploy__staging").unwrap(), "deploy:staging");
}

#[test]
fn test_resolve_tool_name_not_found() {
    let runfile = "# @desc Say hello\nhello() {\n    echo \"hello\"\n}\n";
    let err = resolve_tool_name(Some(runfile), "nonexistent_tool_xyz").unwrap_err();
    assert_eq!(err.code, -32602);
    assert!(err.message.contains("Tool not found"));
    assert_eq!(err.message, "Tool not found: nonexistent_tool_xyz");
}

#[test]
fn test_resolve_tool_name_no_runfile() {
    let err = resolve_tool_name(None, "____tool_that_cannot_exist____").unwrap_err();
    assert_eq!(err.code, -32603);
    assert_eq!(err.message, "No Runfile found");
}

#[test]
fn test_resolve_tool_name_only_functions_with_desc_are_found() {
    let runfile = "# @desc Visible\nvisible() echo ok\nhidden() echo secret\n";
    assert_eq!(resolve_tool_name(Some(runfile), "visible").unwrap(), "visible");
    assert_eq!(resolve_tool_name(Some(runfile), "hidden").unwrap_err().code, -32602);
}

#[test]
fn resolve_prefers_the_later_definition() {
    let runfile = "# @desc Global\nbuild() echo global\n# @desc Project\nbuild() echo project\n";
    assert_eq!(resolve_tool_name(Some(runfile), "build").unwrap(), "build");
}

#[test]
fn resolve_reports_a_syntax_error() {
    let err = resolve_tool_name(Some("build(a"), "build").unwrap_err();
    assert_eq!(err.code, -32603);
    assert!(err.message.starts_with("Runfile syntax error: error: "));
    assert!(err.message.contains("Runfile:1:"));
}

// ---- map_arguments_to_positional ----

#[test]
fn test_map_arguments_named_params_in_order() {
    let runfile = "# @desc Deploy\ndeploy(env: str, version: str) {\n    echo \"$env $version\"\n}\n";
    let args = object(vec![("env", text("prod")), ("version", text("2.0"))]);
    let positional = map_arguments_to_positional(Some(runfile), "deploy", &args).unwrap();
    assert_eq!(positional[0], "prod");
    assert_eq!(positional[1], "2.0");
}

#[test]
fn test_map_arguments_rest_param_expands_array() {
    let runfile = "# @desc Run in container\ndocker_exec(container: str, ...command) {\n    echo \"$container\"\n}\n";
    let args = object(vec![
        ("container", text("web")),
        ("command", array(vec![text("ls"), text("-la"), text("/app")], "[\"ls\",\"-la\",\"/app\"]")),
    ]);
    let result = map_arguments_to_positional(Some(runfile), "docker_exec", &args);
    assert_eq!(result.unwrap(), vec!["web", "ls", "-la", "/app"]);
}

#[test]
fn test_map_arguments_non_object_returns_error() {
    let runfile = "# @desc Deploy\ndeploy(env: str) {\n    echo \"$env\"\n}\n";
    let args = text("not an object");
    let err = map_arguments_to_positional(Some(runfile), "deploy", &args).unwrap_err();
    assert_eq!(err.code, -32602);
    assert!(err.message.contains("Arguments must be an object"));
}

#[test]
fn test_map_arguments_legacy_arg_mapping() {
    let runfile = "# @desc Scale\n# @arg 1:service string Service\n# @arg 2:count int Count\nscale_service() {\n    echo \"$1 $2\"\n}\n";
    let args = object(vec![("service", text("web")), ("count", number("3"))]);
    let positional = map_arguments_to_positional(Some(runfile), "scale_service", &args).unwrap();
    assert_eq!(positional[0], "web");
    assert_eq!(positional[1], "3");
}

#[test]
fn test_map_arguments_no_params_returns_empty() {
    let runfile = "# @desc Say hello\nhello() echo \"hello\"\n";
    let args = object(vec![]);
    assert_eq!(map_arguments_to_positional(Some(runfile), "hello", &args).unwrap(), Vec::<String>::new());
}

#[test]
fn missing_arguments_leave_empty_positions() {
    let runfile = "deploy(env, region, version) echo $env\n";
    let args = object(vec![("version", text("3"))]);
    assert_eq!(map_arguments_to_positional(Some(runfile), "deploy", &args).unwrap(), vec!["", "", "3"]);
}

#[test]
fn explicit_positions_leave_gaps() {
    let runfile = "# @arg 3:third string Third\nf() echo $3\n";
    let args = object(vec![("third", JsonValue::Bool(true))]);
    assert_eq!(map_arguments_to_positional(Some(runfile), "f", &args).unwrap(), vec!["", "", "true"]);
}

#[test]
fn mapping_without_runfile_is_refused() {
    let err = map_arguments_to_positional(None, "f", &object(vec![])).unwrap_err();
    assert_eq!((err.code, err.message.as_str()), (-32603, "No Runfile found"));
}

#[test]
fn value_texts_follow_json() {
    assert_eq!(value_to_string(&text("a b")), "a b");
    assert_eq!(value_to_string(&number("2.5")), "2.5");
    assert_eq!(value_to_string(&JsonValue::Bool(false)), "false");
    assert_eq!(value_to_string(&JsonValue::Null), "");
    assert_eq!(value_to_string(&array(vec![number("1")], "[1]")), "[1]");
}

// ---- request routing and tool calls ----

#[test]
fn requests_are_routed_by_method() {
    assert!(matches!(route_request("2.0", true, "tools/list"), Route::ToolsList));
    assert!(matches!(route_request("2.0", true, "tools/call"), Route::ToolsCall));
    assert!(matches!(route_request("2.0", false, "tools/call"), Route::Notification));
    match route_request("2.0", true, "prompts/list") {
        Route::Reject(e) => {
            assert_eq!(e.code, -32601);
            assert_eq!(e.message, "Method not found: prompts/list");
        }
        _ => panic!("expected a rejection"),
    }
    match route_request("1.0", false, "tools/call") {
        Route::Reject(e) => assert_eq!(e.message, "Invalid JSON-RPC version: 1.0"),
        _ => panic!("expected a rejection"),
    }
}

#[test]
fn tools_list_appends_builtin_tools() {
    let runfile = "# @desc Build it\nbuild() cargo build\n";
    let out = handle_tools_list(Some(runfile), HostPlatform::Linux).unwrap();
    let names: Vec<&str> = out.tools.iter().map(|t| t.name.as_str()).collect();
    assert_eq!(names, vec!["build", "set_cwd", "get_cwd"]);
    let err = handle_tools_list(Some("f(x"), HostPlatform::Linux).unwrap_err();
    assert_eq!(err.code, -32603);
    assert!(err.message.starts_with("Internal error: Parse error: error: "));
}

#[test]
fn test_handle_tools_call_missing_params() {
    let err = plan_tool_call(None, None).unwrap_err();
    assert_eq!((err.code, err.message.as_str()), (-32602, "Missing params"));
}

#[test]
fn test_handle_tools_call_missing_tool_name() {
    let params = object(vec![("arguments", object(vec![]))]);
    let err = plan_tool_call(Some(&params), None).unwrap_err();
    assert_eq!((err.code, err.message.as_str()), (-32602, "Missing tool name"));
}

#[test]
fn test_handle_set_cwd_missing_path() {
    let params = object(vec![("name", text("set_cwd")), ("arguments", object(vec![]))]);
    let err = plan_tool_call(Some(&params), None).unwrap_err();
    assert_eq!(err.message, "Missing 'path' argument");
}

#[test]
fn set_cwd_and_get_cwd_are_builtin() {
    let params = object(vec![("name", text("set_cwd")), ("arguments", object(vec![("path", text("/tmp"))]))]);
    match plan_tool_call(Some(&params), None).unwrap() {
        ToolCall::SetCwd { path } => assert_eq!(path, "/tmp"),
        _ => panic!("expected set_cwd"),
    }
    let params = object(vec![("name", text("get_cwd"))]);
    assert!(matches!(plan_tool_call(Some(&params), None).unwrap(), ToolCall::GetCwd));
    assert_eq!(set_cwd_message("/tmp"), "Successfully changed working directory to /tmp");
}

#[test]
fn test_handle_tools_call_unknown_tool() {
    let runfile = "# @desc Say hello\nhello() echo hello\n";
    let params = object(vec![("name", text("nonexistent_tool"))]);
    let err = plan_tool_call(Some(&params), Some(runfile)).unwrap_err();
    assert_eq!(err.code, -32602);
    assert!(err.message.contains("Tool not found"));
}

#[test]
fn tool_call_runs_the_function_with_positional_arguments() {
    let runfile = "# @desc Deploy\ndeploy:app(env, version = \"latest\") echo $env $version\n";
    let params = object(vec![
        ("name", text("deploy__app")),
        ("arguments", object(vec![("version", text("2")), ("env", text("prod"))])),
    ]);
    match plan_tool_call(Some(&params), Some(runfile)).unwrap() {
        ToolCall::Run { function, args, .. } => {
            assert_eq!(function, "deploy:app");
            assert_eq!(args, vec!["prod", "2"]);
        }
        _ => panic!("expected a run"),
    }
    // Arguments that are not an object count as none.
    let params = object(vec![("name", text("deploy__app")), ("arguments", text("x"))]);
    match plan_tool_call(Some(&params), Some(runfile)).unwrap() {
        ToolCall::Run { args, .. } => assert_eq!(args, vec!["", ""]),
        _ => panic!("expected a run"),
    }
}

#[test]
fn tool_call_result_shows_stderr_under_a_heading() {
    let r = tool_call_result("out\n", "", true);
    assert_eq!(r.texts, vec!["out\n"]);
    assert!(!r.is_error);
    let r = tool_call_result("", "boom\n", false);
    assert_eq!(r.texts, vec!["", "STDERR:\nboom\n"]);
    assert!(r.is_error);
}

#[test]
fn test_handle_initialize() {
    let instructions = build_initialize_instructions(&[]);
    assert!(instructions.contains("Runfile"));
    assert!(instructions.contains("run_docs"));
    assert!(!instructions.contains("Runfile instructions:"));
    let with = build_initialize_instructions(&["Use staging first".to_string(), "Be careful".to_string()]);
    assert!(with.ends_with("\n\nRunfile instructions:\n- Use staging first\n- Be careful"));
}

// ---- inspect ----

#[test]
fn inspect_lists_described_functions_available_here() {
    let runfile = "# @desc Build\nbuild() cargo build\nhidden() echo no\n# @os windows\n# @desc Win\nwin() dir\n# @desc Test: all\n# @arg 1:filter? string Filter\ntest:all() cargo test $1\n";
    let out = inspect(Some(runfile), HostPlatform::Linux).unwrap();
    let names: Vec<&str> = out.tools.iter().map(|t| t.name.as_str()).collect();
    assert_eq!(names, vec!["build", "test__all"]);
    let t = &out.tools[1];
    assert!(t.input_schema.properties.contains_key("filter"));
    assert!(t.input_schema.required.is_empty());
    let on_windows = inspect(Some(runfile), HostPlatform::Windows).unwrap();
    assert_eq!(on_windows.tools.len(), 3);
}

#[test]
fn inspect_keeps_the_project_definition_only() {
    let runfile = "# @desc Global build\nbuild() make\n# @desc Project build\nbuild() cargo build\n";
    let out = inspect(Some(runfile), HostPlatform::Linux).unwrap();
    assert_eq!(out.tools.len(), 1);
    assert_eq!(out.tools[0].description, "Project build");
}

#[test]
fn inspect_without_runfile_has_no_tools() {
    assert!(inspect(None, HostPlatform::Linux).unwrap().tools.is_empty());
    let err = inspect(Some("broken(x"), HostPlatform::Linux).err().unwrap();
    assert!(err.starts_with("Parse error: error: "));
}

#[test]
fn arg_types_come_from_annotations() {
    let attrs = vec![
        Attribute::Desc("d".to_string()),
        Attribute::Arg(run::ast::ArgMetadata {
            position: 1,
            name: "n".to_string(),
            arg_type: ArgType::Float,
            description: "num".to_string(),
        }),
    ];
    let tool = run::mcp::tools::extract_function_metadata("f", &attrs, &[]).unwrap();
    assert_eq!(tool.input_schema.properties.find("n").unwrap().param_type, "number");
    let _unused: Option<ParamView> = None;
}

// ---- value_to_string, with numbers, arrays and objects written by serde_json ----

fn json_written(v: &serde_json::Value) -> String {
    serde_json::to_string(v).unwrap()
}

#[test]
fn test_value_to_string_string() {
    assert_eq!(value_to_string(&text("hello")), "hello");
}

#[test]
fn test_value_to_string_number() {
    let n = json_written(&serde_json::Value::from(42));
    assert_eq!(value_to_string(&number(&n)), "42");
}

#[test]
fn test_value_to_string_float() {
    let n = json_written(&serde_json::Value::from(1.23));
    assert_eq!(value_to_string(&number(&n)), "1.23");
}

#[test]
fn test_value_to_string_bool_true() {
    assert_eq!(value_to_string(&JsonValue::Bool(true)), "true");
}

#[test]
fn test_value_to_string_bool_false() {
    assert_eq!(value_to_string(&JsonValue::Bool(false)), "false");
}

#[test]
fn test_value_to_string_null() {
    assert_eq!(value_to_string(&JsonValue::Null), "");
}

#[test]
fn test_value_to_string_array() {
    let written = json_written(&serde_json::Value::from(vec![1, 2, 3]));
    let val = array(vec![number("1"), number("2"), number("3")], &written);
    let result = value_to_string(&val);
    assert_eq!(result, "[1,2,3]");
}

#[test]
fn test_value_to_string_object() {
    let mut members = serde_json::Map::new();
    members.insert("key".to_string(), serde_json::Value::from("value"));
    let written = json_written(&serde_json::Value::Object(members));
    let mut t: Table<JsonValue> = Table::new();
    t.insert("key".to_string(), text("value"));
    let val = JsonValue::Object(t, written);
    let result = value_to_string(&val);
    assert!(result.contains("key"));
    assert!(result.contains("value"));
}

#[test]
fn test_handle_tools_list_includes_builtin() {
    let result = handle_tools_list(None, HostPlatform::Linux);
    let value = result.expect("no Runfile still lists the built-in tools");
    let tool_names: Vec<&str> = value.tools.iter().map(|t| t.name.as_str()).collect();
    assert!(tool_names.contains(&"set_cwd"));
    assert!(tool_names.contains(&"get_cwd"));
}

// ---- run_docs ----

fn topics() -> Vec<run::mcp::handlers::DocTopic> {
    vec![
        run::mcp::handlers::DocTopic {
            slug: "runfile-syntax".to_string(),
            title: "Runfile syntax".to_string(),
            content: "# Syntax\n...".to_string(),
        },
        run::mcp::handlers::DocTopic {
            slug: "attributes".to_string(),
            title: "Attributes".to_string(),
            content: "# Attributes".to_string(),
        },
    ]
}

#[test]
fn run_docs_is_routed_with_its_topic() {
    let params = object(vec![("name", text("run_docs")), ("arguments", object(vec![("topic", text("attributes"))]))]);
    match plan_tool_call(Some(&params), None).unwrap() {
        ToolCall::RunDocs { topic } => assert_eq!(topic, "attributes"),
        _ => panic!("expected run_docs"),
    }
    let bare = object(vec![("name", text("run_docs"))]);
    match plan_tool_call(Some(&bare), None).unwrap() {
        ToolCall::RunDocs { topic } => assert_eq!(topic, "index"),
        _ => panic!("expected run_docs"),
    }
}

#[test]
fn run_docs_index_lists_topics() {
    let expected = "# run documentation topics\n\nCall `run_docs` with one of these topic slugs:\n\n- **runfile-syntax**: Runfile syntax\n- **attributes**: Attributes";
    assert_eq!(run::mcp::handlers::run_docs_text("index", &topics()), expected);
    assert_eq!(run::mcp::handlers::run_docs_text("", &topics()), expected);
}

#[test]
fn run_docs_serves_a_topic_or_names_the_known_ones() {
    assert_eq!(run::mcp::handlers::run_docs_text("attributes", &topics()), "# Attributes");
    assert_eq!(
        run::mcp::handlers::run_docs_text("nope", &topics()),
        "Unknown topic `nope`. Available topics: runfile-syntax, attributes"
    );
}

// ---- the reserved timeout argument ----

#[test]
fn timeout_argument_is_taken_out_of_the_function_arguments() {
    let runfile = "# @desc Deploy\ndeploy(env, timeout = \"9\") {\n    echo \"$env $timeout\"\n}\n";
    let params = object(vec![
        ("name", text("deploy")),
        ("arguments", object(vec![("env", text("prod")), ("timeout", number("30"))])),
    ]);
    match plan_tool_call(Some(&params), Some(runfile)).unwrap() {
        ToolCall::Run { function, args, timeout } => {
            assert_eq!(function, "deploy");
            assert_eq!(args, vec!["prod", ""]);
            assert_eq!(timeout, Some(30));
        }
        _ => panic!("expected a run"),
    }
}

#[test]
fn timeout_that_is_not_a_whole_number_is_ignored() {
    let runfile = "# @desc Build\nbuild() cargo build\n";
    for t in [number("1.5"), number("-3"), text("10"), number("99999999999999999999")] {
        let params = object(vec![("name", text("build")), ("arguments", object(vec![("timeout", t)]))]);
        match plan_tool_call(Some(&params), Some(runfile)).unwrap() {
            ToolCall::Run { timeout, .. } => assert_eq!(timeout, None),
            _ => panic!("expected a run"),
        }
    }
    let params = object(vec![("name", text("build"))]);
    match plan_tool_call(Some(&params), Some(runfile)).unwrap() {
        ToolCall::Run { timeout, .. } => assert_eq!(timeout, None),
        _ => panic!("expected a run"),
    }
}

#[test]
fn timeout_message_names_the_seconds() {
    assert_eq!(run::mcp::handlers::timeout_message(1, ""), "Tool call timed out after 1 second(s)");
    assert_eq!(
        run::mcp::handlers::timeout_message(5, " (kill failed: x)"),
        "Tool call timed out after 5 second(s) (kill failed: x)"
    );
}
