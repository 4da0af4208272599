use run::ast::{ArgType, Attribute, OsPlatform};
use run::utils::{
    arg_type_to_json_type, build_heredoc_mask, extract_heredoc_delimiters, matches_current_platform, HostPlatform,
};

// The tests run on Linux.
const HOST: HostPlatform = HostPlatform::Linux;

#[test]
fn test_arg_type_to_json_type() {
    assert_eq!(arg_type_to_json_type(&ArgType::String), "string");
    assert_eq!(arg_type_to_json_type(&ArgType::Integer), "integer");
    assert_eq!(arg_type_to_json_type(&ArgType::Float), "number");
    assert_eq!(arg_type_to_json_type(&ArgType::Boolean), "boolean");
    assert_eq!(arg_type_to_json_type(&ArgType::Object), "object");
}

#[test]
fn test_matches_current_platform_no_os_attrs() {
    let attributes = vec![Attribute::Desc("Test".to_string())];
    assert!(matches_current_platform(&attributes, HOST));
}

#[test]
fn test_matches_current_platform_unix() {
    let attributes = vec![Attribute::Os(OsPlatform::Unix)];
    assert!(matches_current_platform(&attributes, HOST));
    assert!(!matches_current_platform(&attributes, HostPlatform::Windows));
}

#[test]
fn test_matches_current_platform_windows() {
    let attributes = vec![Attribute::Os(OsPlatform::Windows)];
    assert!(!matches_current_platform(&attributes, HOST));
    assert!(matches_current_platform(&attributes, HostPlatform::Windows));
}

#[test]
fn test_matches_current_platform_multiple_os() {
    let attributes = vec![Attribute::Os(OsPlatform::Linux), Attribute::Os(OsPlatform::MacOS)];
    assert!(matches_current_platform(&attributes, HOST));
    assert!(matches_current_platform(&attributes, HostPlatform::MacOS));
    assert!(!matches_current_platform(&attributes, HostPlatform::Windows));
}

#[test]
fn utils_test_extract_heredoc_delimiters_basic() {
    assert_eq!(extract_heredoc_delimiters("cat <<EOF"), vec!["EOF"]);
    assert_eq!(extract_heredoc_delimiters("cat <<-EOF"), vec!["EOF"]);
    assert_eq!(extract_heredoc_delimiters("cat <<'EOF'"), vec!["EOF"]);
    assert_eq!(extract_heredoc_delimiters("cat <<\"EOF\""), vec!["EOF"]);
}

#[test]
fn utils_test_extract_heredoc_skips_herestring() {
    let result: Vec<String> = extract_heredoc_delimiters("cat <<<EOF");
    assert!(result.is_empty());
}

#[test]
fn utils_test_extract_heredoc_inside_quotes() {
    let result: Vec<String> = extract_heredoc_delimiters("echo \"<<EOF\" more");
    assert!(result.is_empty());
}

#[test]
fn test_extract_heredoc_case_sensitive() {
    assert_eq!(extract_heredoc_delimiters("cat <<eof"), vec!["eof"]);
    assert_eq!(extract_heredoc_delimiters("cat <<Eof"), vec!["Eof"]);
    assert_eq!(extract_heredoc_delimiters("cat <<EOF"), vec!["EOF"]);
}

#[test]
fn test_extract_heredoc_escaped_quotes_in_string() {
    let result: Vec<String> = extract_heredoc_delimiters(r#"echo "foo \"<<EOF\" bar""#);
    assert!(result.is_empty());
}

#[test]
fn test_extract_heredoc_with_hyphen_in_delimiter() {
    assert_eq!(extract_heredoc_delimiters("cat <<END-OF-FILE"), vec!["END-OF-FILE"]);
}

#[test]
fn test_extract_heredoc_with_dot_in_delimiter() {
    assert_eq!(extract_heredoc_delimiters("cat <<DATA.TXT"), vec!["DATA.TXT"]);
}

#[test]
fn test_build_heredoc_mask_basic() {
    let lines = vec!["cat <<EOF", "content", "EOF", "echo done"];
    let mask = build_heredoc_mask(&lines);
    assert_eq!(mask, vec![false, true, true, false]);
}

#[test]
fn test_build_heredoc_mask_multiple() {
    let lines = vec!["cat <<A", "a", "A", "cat <<B", "b", "B"];
    let mask = build_heredoc_mask(&lines);
    assert_eq!(mask, vec![false, true, true, false, true, true]);
}
