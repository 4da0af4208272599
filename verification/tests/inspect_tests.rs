use run::mcp::tools::{inspect, InspectOutput};
use run::utils::HostPlatform;

fn inspect_here(runfile: &str) -> InspectOutput {
    inspect(Some(runfile), HostPlatform::Linux).expect("the Runfile parses")
}

#[test]
fn test_mcp_inspect_with_params() {
    let out = inspect_here(
        "\n# @desc Deploy application to environment\ndeploy(env, version = \"latest\") {\n    echo \"Deploying $version to $env\"\n}\n",
    );
    assert_eq!(out.tools.len(), 1, "Should have one tool");
    let deploy_tool = &out.tools[0];
    assert_eq!(deploy_tool.name, "deploy");
    assert_eq!(deploy_tool.description, "Deploy application to environment");
    let properties = &deploy_tool.input_schema.properties;
    assert!(properties.find("env").is_some());
    assert!(properties.find("version").is_some());
    let required = &deploy_tool.input_schema.required;
    assert_eq!(required.len(), 1);
    assert_eq!(required[0], "env");
}

#[test]
fn test_mcp_inspect_with_rest_params() {
    let out = inspect_here("\n# @desc Run command in container\ndocker_exec(container, ...command) {\n    docker exec $container $command\n}\n");
    let tool = &out.tools[0];
    let properties = &tool.input_schema.properties;
    assert_eq!(properties.find("container").unwrap().param_type, "string");
    assert_eq!(properties.find("command").unwrap().param_type, "array");
    let required = &tool.input_schema.required;
    assert_eq!(required.len(), 1);
    assert_eq!(required[0], "container");
}

#[test]
fn test_mcp_inspect_hybrid_mode_with_descriptions() {
    let out = inspect_here(
        "\n# @desc Scale a service\n# @arg service The service to scale\n# @arg replicas Number of instances\nscale(service, replicas: int = 1) {\n    docker compose scale $service=$replicas\n}\n",
    );
    let tool = &out.tools[0];
    let properties = &tool.input_schema.properties;
    assert_eq!(properties.find("service").unwrap().param_type, "string");
    assert_eq!(properties.find("replicas").unwrap().param_type, "integer");
    assert_eq!(properties.find("service").unwrap().description, "The service to scale");
    assert_eq!(properties.find("replicas").unwrap().description, "Number of instances");
    let required = &tool.input_schema.required;
    assert_eq!(required.len(), 1);
    assert_eq!(required[0], "service");
}

#[test]
fn test_mcp_inspect_backward_compatibility() {
    let out = inspect_here("\n# @desc Restart services\n# @arg 1:service string The service name\nrestart() {\n    docker compose restart $1\n}\n");
    let tool = &out.tools[0];
    let properties = &tool.input_schema.properties;
    assert_eq!(properties.find("service").unwrap().param_type, "string");
    assert_eq!(properties.find("service").unwrap().description, "The service name");
    let required = &tool.input_schema.required;
    assert_eq!(required.len(), 1);
    assert_eq!(required[0], "service");
}

#[test]
fn test_mcp_inspect_multiple_functions() {
    let out = inspect_here(
        "\n# @desc Deploy application\ndeploy(env, version = \"latest\") {\n    echo \"Deploying $version to $env\"\n}\n\n# @desc Scale service\nscale(service, replicas: int = 1) {\n    docker compose scale $service=$replicas\n}\n\n# Function without description - should not appear in MCP\nbuild() {\n    docker compose build\n}\n",
    );
    assert_eq!(out.tools.len(), 2);
    let names: Vec<&str> = out.tools.iter().map(|t| t.name.as_str()).collect();
    assert!(names.contains(&"deploy"));
    assert!(names.contains(&"scale"));
}

#[test]
fn test_inspect_output_json_structure() {
    let out = inspect_here(
        "\n# @desc Scale a specific service\n# @arg 1:service string The name of the docker service\n# @arg 2:replicas integer The number of instances to spin up\nscale() docker compose scale $1=$2\n",
    );
    assert_eq!(out.tools.len(), 1, "Should have one tool");
    let tool = &out.tools[0];
    assert_eq!(tool.name, "scale");
    assert_eq!(tool.description, "Scale a specific service");
    let schema = &tool.input_schema;
    assert_eq!(schema.schema_type, "object");
    assert_eq!(schema.properties.find("service").unwrap().param_type, "string");
    assert_eq!(schema.properties.find("replicas").unwrap().param_type, "integer");
    assert_eq!(schema.required.len(), 2);
    assert!(schema.required.contains(&"service".to_string()));
    assert!(schema.required.contains(&"replicas".to_string()));
}

#[test]
fn test_inspect_function_without_metadata() {
    let out = inspect_here("\nbuild() echo \"Building...\"\n");
    assert_eq!(out.tools.len(), 0);
}

#[test]
fn test_inspect_multiple_functions() {
    let out = inspect_here(
        "\n# @desc Build the project\nbuild() echo \"Building...\"\n\n# @desc Deploy to environment\n# @arg 1:env string Target environment\ndeploy() echo \"Deploying to $1\"\n",
    );
    assert_eq!(out.tools.len(), 2);
    let names: Vec<&str> = out.tools.iter().map(|t| t.name.as_str()).collect();
    assert!(names.contains(&"build"));
    assert!(names.contains(&"deploy"));
}

#[test]
fn test_inspect_arg_with_boolean_type() {
    let out = inspect_here("\n# @desc Test function with boolean\n# @arg 1:verbose boolean Enable verbose output\ntest() echo \"Verbose: $1\"\n");
    let properties = &out.tools[0].input_schema.properties;
    assert_eq!(properties.find("verbose").unwrap().param_type, "boolean");
}

#[test]
fn test_inspect_with_os_filtered_functions() {
    let runfile = "\n# @os unix\n# @desc Unix-only function\nunix_func() echo \"Unix\"\n\n# @os windows\n# @desc Windows-only function\nwin_func() echo \"Windows\"\n";
    let out = inspect(Some(runfile), HostPlatform::Linux).unwrap();
    assert_eq!(out.tools.len(), 1);
    assert_eq!(out.tools[0].name, "unix_func");
}
