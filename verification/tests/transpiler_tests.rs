use run::transpiler::{
    extract_heredoc_delimiters, indent, rewrite_call_sites, sanitise_name, transpile_to_pwsh, transpile_to_shell,
    Interpreter,
};

#[test]
fn test_transpile_simple_shell_function() {
    let result = transpile_to_shell("build", "cargo build", false);
    assert_eq!(result, "build() {\n    cargo build\n}");
}

#[test]
fn test_transpile_block_shell_function() {
    let body = "cargo build --release\ncargo test";
    let result = transpile_to_shell("ci", body, true);
    assert_eq!(
        result,
        "ci() {\n    cargo build --release\n    cargo test\n}"
    );
}

#[test]
fn test_transpile_colon_name() {
    let result = transpile_to_shell("docker:build", "docker build .", false);
    assert_eq!(result, "docker__build() {\n    docker build .\n}");
}

#[test]
fn test_transpile_simple_pwsh_function() {
    let result = transpile_to_pwsh("build", "cargo build", false);
    assert_eq!(result, "function build {\n    cargo build\n}");
}

#[test]
fn test_transpile_block_pwsh_function() {
    let body = "cargo build\ncargo test";
    let result = transpile_to_pwsh("ci", body, true);
    assert_eq!(result, "function ci {\n    cargo build\n    cargo test\n}");
}

#[test]
fn test_sanitise_name() {
    assert_eq!(sanitise_name("docker:build"), "docker__build");
    assert_eq!(sanitise_name("simple"), "simple");
    assert_eq!(sanitise_name("multi:level:name"), "multi__level__name");
    assert_eq!(sanitise_name("my-func"), "my_func");
    assert_eq!(sanitise_name("build-and-deploy"), "build_and_deploy");
    assert_eq!(sanitise_name("ns:my-func"), "ns__my_func");
}

#[test]
fn test_rewrite_call_sites_simple() {
    let body = "docker:build\ndocker:push";
    let siblings = vec!["docker:build", "docker:push"];
    let result = rewrite_call_sites(body, &siblings);
    assert_eq!(result, "docker__build\ndocker__push");
}

#[test]
fn test_rewrite_call_sites_with_args() {
    let body = "docker:build --tag latest\ndocker:push myapp";
    let siblings = vec!["docker:build", "docker:push"];
    let result = rewrite_call_sites(body, &siblings);
    assert_eq!(result, "docker__build --tag latest\ndocker__push myapp");
}

#[test]
fn test_rewrite_call_sites_no_partial_match() {
    let body = "docker:build\nmy_docker:build_script";
    let siblings = vec!["docker:build"];
    let result = rewrite_call_sites(body, &siblings);
    // Should only replace the exact match, not the partial one
    assert_eq!(result, "docker__build\nmy_docker:build_script");
}

#[test]
fn test_rewrite_call_sites_no_colons() {
    let body = "build\ntest\ndeploy";
    let siblings = vec!["build", "test", "deploy"];
    let result = rewrite_call_sites(body, &siblings);
    // No changes when names don't have colons
    assert_eq!(result, "build\ntest\ndeploy");
}

#[test]
fn test_interpreter_compatibility_sh_bash() {
    let sh = Interpreter::Sh;
    let bash = Interpreter::Bash;

    // bash is a superset of sh: it can run sh code
    assert!(bash.is_compatible_with(&sh));
    // sh cannot run bash-specific syntax
    assert!(!sh.is_compatible_with(&bash));
    // same-interpreter pairs are always compatible
    assert!(sh.is_compatible_with(&sh));
    assert!(bash.is_compatible_with(&bash));
}

#[test]
fn test_interpreter_compatibility_pwsh() {
    let pwsh = Interpreter::Pwsh;
    let sh = Interpreter::Sh;

    assert!(pwsh.is_compatible_with(&pwsh));
    assert!(!pwsh.is_compatible_with(&sh));
    assert!(!sh.is_compatible_with(&pwsh));
}

#[test]
fn test_interpreter_compatibility_polyglot() {
    let python = Interpreter::Python;
    let python3 = Interpreter::Python3;
    let node = Interpreter::Node;
    let ruby = Interpreter::Ruby;
    let sh = Interpreter::Sh;

    // Python and Python3 can compose with each other
    assert!(python.is_compatible_with(&python3));
    assert!(python3.is_compatible_with(&python));

    // But not with other polyglot languages
    assert!(!python.is_compatible_with(&node));
    assert!(!python.is_compatible_with(&ruby));
    assert!(!python.is_compatible_with(&sh));
    assert!(!node.is_compatible_with(&ruby));
    assert!(!node.is_compatible_with(&sh));
    assert!(!ruby.is_compatible_with(&sh));

    // But they can compose with themselves
    assert!(python.is_compatible_with(&python));
    assert!(python3.is_compatible_with(&python3));
    assert!(node.is_compatible_with(&node));
    assert!(ruby.is_compatible_with(&ruby));
}

#[test]
fn test_indent() {
    let text = "line1\nline2\nline3";
    let result = indent(text, "    ");
    assert_eq!(result, "    line1\n    line2\n    line3");
}

#[test]
fn test_indent_with_empty_lines() {
    let text = "line1\n\nline3";
    let result = indent(text, "    ");
    assert_eq!(result, "    line1\n\n    line3");
}

#[test]
fn test_indent_skips_heredoc_content() {
    let text = "cat > file <<EOF\nKEY=value\nEOF\necho done";
    let result = indent(text, "    ");
    assert_eq!(
        result,
        "    cat > file <<EOF\nKEY=value\nEOF\n    echo done"
    );
}

#[test]
fn test_indent_skips_heredoc_dash() {
    let text = "cat > file <<-END\n\tline1\n\tEND\necho done";
    let result = indent(text, "    ");
    assert_eq!(
        result,
        "    cat > file <<-END\n\tline1\n\tEND\n    echo done"
    );
}

#[test]
fn test_indent_skips_quoted_heredoc_delimiter() {
    let text = "cat <<'MARKER'\n$NOT_EXPANDED\nMARKER";
    let result = indent(text, "    ");
    assert_eq!(result, "    cat <<'MARKER'\n$NOT_EXPANDED\nMARKER");
}

#[test]
fn test_indent_multiple_heredocs() {
    let text = "cat <<A\na\nA\ncat <<B\nb\nB\necho end";
    let result = indent(text, "  ");
    assert_eq!(result, "  cat <<A\na\nA\n  cat <<B\nb\nB\n  echo end");
}

#[test]
fn test_indent_ignores_heredoc_marker_in_quotes() {
    // <<EOF inside a quoted string should NOT trigger heredoc detection
    let text = "echo \"<<EOF is not a heredoc\"\necho normal";
    let result = indent(text, "    ");
    assert_eq!(
        result,
        "    echo \"<<EOF is not a heredoc\"\n    echo normal"
    );
}

#[test]
fn transpiler_test_extract_heredoc_delimiters_basic() {
    assert_eq!(extract_heredoc_delimiters("cat <<EOF"), vec!["EOF"]);
    assert_eq!(extract_heredoc_delimiters("cat <<-EOF"), vec!["EOF"]);
    assert_eq!(extract_heredoc_delimiters("cat <<'EOF'"), vec!["EOF"]);
    assert_eq!(extract_heredoc_delimiters("cat <<\"EOF\""), vec!["EOF"]);
}

#[test]
fn transpiler_test_extract_heredoc_skips_herestring() {
    let result: Vec<String> = extract_heredoc_delimiters("cat <<<EOF");
    assert!(result.is_empty());
}

#[test]
fn transpiler_test_extract_heredoc_inside_quotes() {
    let result: Vec<String> = extract_heredoc_delimiters("echo \"<<EOF\" more");
    assert!(result.is_empty());
}

#[test]
fn test_transpile_block_with_heredoc() {
    let body = "cat > file <<EOF\nKEY=value\nEOF";
    let result = transpile_to_shell("setup", body, true);
    assert_eq!(result, "setup() {\n    cat > file <<EOF\nKEY=value\nEOF\n}");
}

#[test]
fn test_rewrite_word_boundaries() {
    // Whole-word match in command position → rewrite
    let result = rewrite_call_sites("docker:build", &["docker:build"]);
    assert_eq!(result, "docker__build");

    // In command position on each line → rewrite
    let result = rewrite_call_sites(
        "docker:build\ndocker:push",
        &["docker:build", "docker:push"],
    );
    assert_eq!(result, "docker__build\ndocker__push");
}

#[test]
fn test_rewrite_no_partial_match() {
    // Should not replace if it's part of another word
    let result = rewrite_call_sites("my_docker:build_func", &["docker:build"]);
    assert_eq!(result, "my_docker:build_func");
}

#[test]
fn test_rewrite_call_sites_should_not_rewrite_arguments() {
    // When a sibling name appears as an argument to another command (not in
    // command position), it should NOT be rewritten. This is the bug that
    // causes `pnpm test:unit` to become `pnpm test__unit`.
    let body = "pnpm test:unit \"$@\"";
    let siblings = vec!["test:unit"];
    let result = rewrite_call_sites(body, &siblings);
    assert_eq!(result, "pnpm test:unit \"$@\"");
}

#[test]
fn test_rewrite_call_sites_command_position_vs_argument() {
    // test:unit at the start of a line IS a function call → rewrite
    // test:unit as an argument to pnpm is NOT a function call → don't rewrite
    let body = "test:unit\npnpm test:unit \"$@\"";
    let siblings = vec!["test:unit"];
    let result = rewrite_call_sites(body, &siblings);
    assert_eq!(result, "test__unit\npnpm test:unit \"$@\"");
}

#[test]
fn test_rewrite_call_sites_sibling_name_as_argument_to_echo() {
    // echo test:build should not rewrite the argument
    let body = "echo \"running test:build\"\ntest:build";
    let siblings = vec!["test:build"];
    let result = rewrite_call_sites(body, &siblings);
    assert_eq!(result, "echo \"running test:build\"\ntest__build");
}

#[test]
fn test_rewrite_call_sites_pnpm_wrapper_pattern() {
    // Real-world pattern: a task wraps pnpm and the aggregate task calls siblings.
    // The preamble function bodies should keep `pnpm test:unit` intact,
    // while the aggregate body should rewrite direct calls.
    let unit_body = "pnpm test:unit \"$@\"";
    let integration_body = "pnpm test:integration \"$@\"";
    let all_body = "test:unit\ntest:integration";
    let siblings = vec!["test:unit", "test:integration"];

    // The aggregate task's body: direct calls should be rewritten
    let result = rewrite_call_sites(all_body, &siblings);
    assert_eq!(result, "test__unit\ntest__integration");

    // The sibling bodies (used in preamble): args should NOT be rewritten
    let result = rewrite_call_sites(unit_body, &siblings);
    assert_eq!(result, "pnpm test:unit \"$@\"");

    let result = rewrite_call_sites(integration_body, &siblings);
    assert_eq!(result, "pnpm test:integration \"$@\"");
}

#[test]
fn test_rewrite_call_sites_after_command_separators() {
    // Sibling names after && || ; | ( should be rewritten (command position)
    let siblings = vec!["test:unit", "test:lint"];

    assert_eq!(
        rewrite_call_sites("test:unit && test:lint", &siblings),
        "test__unit && test__lint"
    );
    assert_eq!(
        rewrite_call_sites("test:unit || test:lint", &siblings),
        "test__unit || test__lint"
    );
    assert_eq!(
        rewrite_call_sites("test:unit; test:lint", &siblings),
        "test__unit; test__lint"
    );
    assert_eq!(rewrite_call_sites("(test:unit)", &siblings), "(test__unit)");
}

#[test]
fn test_rewrite_call_sites_indented() {
    // Indented calls (e.g. inside if/then blocks) should still be rewritten
    let body = "    test:unit\n    test:lint";
    let siblings = vec!["test:unit", "test:lint"];
    let result = rewrite_call_sites(body, &siblings);
    assert_eq!(result, "    test__unit\n    test__lint");
}
