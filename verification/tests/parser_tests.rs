use run::ast::{ArgType, Attribute, Statement};
use run::parser::parse_script;

#[test]
fn test_parse_command_with_variable_after_equals() {
    let input = "server() echo port=${1:-8080}";
    let result = parse_script(input).unwrap();

    if let Statement::SimpleFunctionDef {
        name,
        command_template,
        attributes,
        ..
    } = &result.statements[0]
    {
        assert_eq!(name, "server");
        assert_eq!(
            command_template, "echo port=${1:-8080}",
            "Command template has unexpected spacing"
        );
        assert_eq!(attributes.len(), 0);
    } else {
        panic!("Expected SimpleFunctionDef");
    }
}

#[test]
fn mod_test_parse_desc_attribute() {
    let input = r"
# @desc Restarts the docker containers
restart() docker compose restart
";
    let result = parse_script(input).unwrap();

    if let Statement::SimpleFunctionDef {
        name, attributes, ..
    } = &result.statements[0]
    {
        assert_eq!(name, "restart");
        assert_eq!(attributes.len(), 1);

        if let Attribute::Desc(desc) = &attributes[0] {
            assert_eq!(desc, "Restarts the docker containers");
        } else {
            panic!("Expected Desc attribute");
        }
    } else {
        panic!("Expected SimpleFunctionDef");
    }
}

#[test]
fn test_parse_arg_attribute_with_type() {
    let input = r"
# @arg 1:service string The name of the service
scale() docker compose scale $1
";
    let result = parse_script(input).unwrap();

    if let Statement::SimpleFunctionDef {
        name, attributes, ..
    } = &result.statements[0]
    {
        assert_eq!(name, "scale");
        assert_eq!(attributes.len(), 1);

        if let Attribute::Arg(arg) = &attributes[0] {
            assert_eq!(arg.position, 1);
            assert_eq!(arg.name, "service");
            assert_eq!(arg.arg_type, ArgType::String);
            assert_eq!(arg.description, "The name of the service");
        } else {
            panic!("Expected Arg attribute");
        }
    } else {
        panic!("Expected SimpleFunctionDef");
    }
}

#[test]
fn test_parse_arg_attribute_integer_type() {
    let input = r"
# @arg 2:replicas integer The number of instances
scale() docker compose scale $1=$2
";
    let result = parse_script(input).unwrap();

    if let Statement::SimpleFunctionDef {
        name, attributes, ..
    } = &result.statements[0]
    {
        assert_eq!(name, "scale");
        assert_eq!(attributes.len(), 1);

        if let Attribute::Arg(arg) = &attributes[0] {
            assert_eq!(arg.position, 2);
            assert_eq!(arg.name, "replicas");
            assert_eq!(arg.arg_type, ArgType::Integer);
            assert_eq!(arg.description, "The number of instances");
        } else {
            panic!("Expected Arg attribute");
        }
    } else {
        panic!("Expected SimpleFunctionDef");
    }
}

#[test]
fn test_parse_arg_attribute_boolean_type() {
    let input = r#"
# @arg 1:verbose boolean Enable verbose output
test() echo "Verbose: $1"
"#;
    let result = parse_script(input).unwrap();

    if let Statement::SimpleFunctionDef {
        name, attributes, ..
    } = &result.statements[0]
    {
        assert_eq!(name, "test");
        assert_eq!(attributes.len(), 1);

        if let Attribute::Arg(arg) = &attributes[0] {
            assert_eq!(arg.position, 1);
            assert_eq!(arg.name, "verbose");
            assert_eq!(arg.arg_type, ArgType::Boolean);
            assert_eq!(arg.description, "Enable verbose output");
        } else {
            panic!("Expected Arg attribute");
        }
    } else {
        panic!("Expected SimpleFunctionDef");
    }
}

#[test]
fn test_parse_multiple_attributes() {
    let input = r"
# @desc Scale a specific service
# @arg 1:service string The service name
# @arg 2:replicas integer The number of instances
scale() docker compose scale $1=$2
";
    let result = parse_script(input).unwrap();

    if let Statement::SimpleFunctionDef {
        name, attributes, ..
    } = &result.statements[0]
    {
        assert_eq!(name, "scale");
        assert_eq!(attributes.len(), 3);

        // Check desc
        if let Attribute::Desc(desc) = &attributes[0] {
            assert_eq!(desc, "Scale a specific service");
        } else {
            panic!("Expected Desc attribute at position 0");
        }

        // Check first arg
        if let Attribute::Arg(arg) = &attributes[1] {
            assert_eq!(arg.position, 1);
            assert_eq!(arg.name, "service");
            assert_eq!(arg.arg_type, ArgType::String);
        } else {
            panic!("Expected Arg attribute at position 1");
        }

        // Check second arg
        if let Attribute::Arg(arg) = &attributes[2] {
            assert_eq!(arg.position, 2);
            assert_eq!(arg.name, "replicas");
            assert_eq!(arg.arg_type, ArgType::Integer);
        } else {
            panic!("Expected Arg attribute at position 2");
        }
    } else {
        panic!("Expected SimpleFunctionDef");
    }
}

#[test]
fn test_parse_arg_without_explicit_type() {
    let input = r#"
# @arg 1:name Some description without type
greet() echo "Hello, $1"
"#;
    let result = parse_script(input).unwrap();

    if let Statement::SimpleFunctionDef {
        name, attributes, ..
    } = &result.statements[0]
    {
        assert_eq!(name, "greet");
        assert_eq!(attributes.len(), 1);

        if let Attribute::Arg(arg) = &attributes[0] {
            assert_eq!(arg.position, 1);
            assert_eq!(arg.name, "name");
            // Should default to string
            assert_eq!(arg.arg_type, ArgType::String);
            assert_eq!(arg.description, "Some description without type");
        } else {
            panic!("Expected Arg attribute");
        }
    } else {
        panic!("Expected SimpleFunctionDef");
    }
}

#[test]
fn test_strip_quotes_from_desc() {
    let input = r#"
# @desc "Open a shell in the specified Docker container"
docker_shell() docker compose exec bash
"#;
    let result = parse_script(input).unwrap();

    if let Statement::SimpleFunctionDef {
        name, attributes, ..
    } = &result.statements[0]
    {
        assert_eq!(name, "docker_shell");
        assert_eq!(attributes.len(), 1);

        if let Attribute::Desc(desc) = &attributes[0] {
            assert_eq!(desc, "Open a shell in the specified Docker container");
        } else {
            panic!("Expected Desc attribute");
        }
    } else {
        panic!("Expected SimpleFunctionDef");
    }
}

#[test]
fn test_strip_quotes_from_arg() {
    let input = r#"
# @arg 1:container "The name of the container"
shell() docker compose exec $1 bash
"#;
    let result = parse_script(input).unwrap();

    if let Statement::SimpleFunctionDef {
        name, attributes, ..
    } = &result.statements[0]
    {
        assert_eq!(name, "shell");
        assert_eq!(attributes.len(), 1);

        if let Attribute::Arg(arg) = &attributes[0] {
            assert_eq!(arg.position, 1);
            assert_eq!(arg.name, "container");
            assert_eq!(arg.arg_type, ArgType::String);
            assert_eq!(arg.description, "The name of the container");
        } else {
            panic!("Expected Arg attribute");
        }
    } else {
        panic!("Expected SimpleFunctionDef");
    }
}

#[test]
fn test_arg_without_position_hybrid_mode() {
    let input = r"
# @arg service The service to scale
# @arg replicas Number of instances
scale(service, replicas) docker compose scale $service=$replicas
";
    let result = parse_script(input).unwrap();

    if let Statement::SimpleFunctionDef {
        name, attributes, ..
    } = &result.statements[0]
    {
        assert_eq!(name, "scale");
        assert_eq!(attributes.len(), 2);

        if let Attribute::Arg(arg) = &attributes[0] {
            assert_eq!(arg.name, "service");
            assert_eq!(arg.description, "The service to scale");
            assert_eq!(arg.position, 0); // Marker for hybrid mode
        } else {
            panic!("Expected Arg attribute");
        }

        if let Attribute::Arg(arg) = &attributes[1] {
            assert_eq!(arg.name, "replicas");
            assert_eq!(arg.description, "Number of instances");
        } else {
            panic!("Expected Arg attribute");
        }
    } else {
        panic!("Expected SimpleFunctionDef");
    }
}

// Tests for RFC004 function signature notation

#[test]
fn test_function_with_params() {
    let input = "deploy(env, version) echo $env $version";
    let result = parse_script(input).unwrap();

    if let Statement::SimpleFunctionDef { name, params, .. } = &result.statements[0] {
        assert_eq!(name, "deploy");
        assert_eq!(params.len(), 2);
        assert_eq!(params[0].name, "env");
        assert_eq!(params[0].param_type, ArgType::String);
        assert_eq!(params[0].default_value, None);
        assert!(!params[0].is_rest);
        assert_eq!(params[1].name, "version");
    } else {
        panic!("Expected SimpleFunctionDef");
    }
}

#[test]
fn test_function_with_typed_params() {
    let input = "scale(service: str, replicas: int) echo $service $replicas";
    let result = parse_script(input).unwrap();

    if let Statement::SimpleFunctionDef { name, params, .. } = &result.statements[0] {
        assert_eq!(name, "scale");
        assert_eq!(params.len(), 2);
        assert_eq!(params[0].name, "service");
        assert_eq!(params[0].param_type, ArgType::String);
        assert_eq!(params[1].name, "replicas");
        assert_eq!(params[1].param_type, ArgType::Integer);
    } else {
        panic!("Expected SimpleFunctionDef");
    }
}

#[test]
fn test_function_with_default_values() {
    let input = r#"deploy(env, version = "latest") echo $env $version"#;
    let result = parse_script(input).unwrap();

    if let Statement::SimpleFunctionDef { name, params, .. } = &result.statements[0] {
        assert_eq!(name, "deploy");
        assert_eq!(params.len(), 2);
        assert_eq!(params[0].name, "env");
        assert_eq!(params[0].default_value, None);
        assert_eq!(params[1].name, "version");
        assert_eq!(params[1].default_value, Some("latest".to_string()));
    } else {
        panic!("Expected SimpleFunctionDef");
    }
}

#[test]
fn test_function_with_rest_param() {
    let input = "echo_all(...args) echo $args";
    let result = parse_script(input).unwrap();

    if let Statement::SimpleFunctionDef { name, params, .. } = &result.statements[0] {
        assert_eq!(name, "echo_all");
        assert_eq!(params.len(), 1);
        assert_eq!(params[0].name, "args");
        assert!(params[0].is_rest);
        assert_eq!(params[0].default_value, None);
    } else {
        panic!("Expected SimpleFunctionDef");
    }
}

#[test]
fn test_function_with_mixed_params_and_rest() {
    let input = "docker_exec(container, ...command) docker exec $container $command";
    let result = parse_script(input).unwrap();

    if let Statement::SimpleFunctionDef { name, params, .. } = &result.statements[0] {
        assert_eq!(name, "docker_exec");
        assert_eq!(params.len(), 2);
        assert_eq!(params[0].name, "container");
        assert!(!params[0].is_rest);
        assert_eq!(params[1].name, "command");
        assert!(params[1].is_rest);
    } else {
        panic!("Expected SimpleFunctionDef");
    }
}

#[test]
fn test_quoted_default_with_comma() {
    let input = r#"test(val = "a,b,c") echo $val"#;
    let result = parse_script(input).unwrap();

    if let Statement::SimpleFunctionDef { name, params, .. } = &result.statements[0] {
        assert_eq!(name, "test");
        assert_eq!(params.len(), 1);
        assert_eq!(params[0].name, "val");
        assert_eq!(params[0].default_value, Some("a,b,c".to_string()));
    } else {
        panic!("Expected SimpleFunctionDef");
    }
}

#[test]
fn test_single_quoted_default() {
    let input = "test(val = 'hello world') echo $val";
    let result = parse_script(input).unwrap();

    if let Statement::SimpleFunctionDef { name, params, .. } = &result.statements[0] {
        assert_eq!(name, "test");
        assert_eq!(params[0].default_value, Some("hello world".to_string()));
    } else {
        panic!("Expected SimpleFunctionDef");
    }
}

#[test]
fn test_unquoted_default() {
    let input = "test(port = 8080) echo $port";
    let result = parse_script(input).unwrap();

    if let Statement::SimpleFunctionDef { name, params, .. } = &result.statements[0] {
        assert_eq!(name, "test");
        assert_eq!(params[0].default_value, Some("8080".to_string()));
    } else {
        panic!("Expected SimpleFunctionDef");
    }
}

#[test]
fn test_empty_parens_still_works() {
    let input = "greet() echo hello";
    let result = parse_script(input).unwrap();

    if let Statement::SimpleFunctionDef { name, params, .. } = &result.statements[0] {
        assert_eq!(name, "greet");
        assert_eq!(params.len(), 0);
    } else {
        panic!("Expected SimpleFunctionDef");
    }
}

#[test]
fn test_function_keyword_with_params() {
    let input = "function deploy(env, version) echo $env $version";
    let result = parse_script(input).unwrap();

    if let Statement::SimpleFunctionDef { name, params, .. } = &result.statements[0] {
        assert_eq!(name, "deploy");
        assert_eq!(params.len(), 2);
        assert_eq!(params[0].name, "env");
        assert_eq!(params[1].name, "version");
    } else {
        panic!("Expected SimpleFunctionDef");
    }
}

#[test]
fn test_block_function_with_params() {
    let input = r#"deploy(env, version) {
echo "Deploying to $env"
echo "Version: $version"
}"#;
    let result = parse_script(input).unwrap();

    if let Statement::BlockFunctionDef { name, params, .. } = &result.statements[0] {
        assert_eq!(name, "deploy");
        assert_eq!(params.len(), 2);
        assert_eq!(params[0].name, "env");
        assert_eq!(params[1].name, "version");
    } else {
        panic!("Expected BlockFunctionDef");
    }
}

#[test]
fn test_all_param_types() {
    let input = "test(s: string, i: integer, b: boolean) echo $s $i $b";
    let result = parse_script(input).unwrap();

    if let Statement::SimpleFunctionDef { name, params, .. } = &result.statements[0] {
        assert_eq!(name, "test");
        assert_eq!(params.len(), 3);
        assert_eq!(params[0].param_type, ArgType::String);
        assert_eq!(params[1].param_type, ArgType::Integer);
        assert_eq!(params[2].param_type, ArgType::Boolean);
    } else {
        panic!("Expected SimpleFunctionDef");
    }
}

#[test]
fn test_short_type_names() {
    let input = "test(s: str, i: int, b: bool) echo $s $i $b";
    let result = parse_script(input).unwrap();

    if let Statement::SimpleFunctionDef { name, params, .. } = &result.statements[0] {
        assert_eq!(name, "test");
        assert_eq!(params.len(), 3);
        assert_eq!(params[0].param_type, ArgType::String);
        assert_eq!(params[1].param_type, ArgType::Integer);
        assert_eq!(params[2].param_type, ArgType::Boolean);
    } else {
        panic!("Expected SimpleFunctionDef");
    }
}
