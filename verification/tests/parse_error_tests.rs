use run::parser::{parse_script, ParseError};

/// Parse input that must fail, naming the file when given.
fn parse_err(input: &str, filename: Option<&str>) -> ParseError {
    let err = parse_script(input).expect_err("expected a parse failure for this input");
    match filename {
        Some(f) => err.with_filename(f),
        None => err,
    }
}

#[test]
fn test_display_includes_filename_and_location() {
    let err = parse_err("\"unclosed string", Some("Runfile"));
    let rendered = err.render();
    assert!(rendered.contains("Runfile:"), "filename missing in:\n{rendered}");
    assert!(rendered.contains("error:"), "'error:' prefix missing in:\n{rendered}");
    assert!(rendered.contains("-->"), "location arrow missing in:\n{rendered}");
}

#[test]
fn test_display_without_filename() {
    let err = parse_err("\"unclosed string", None);
    let rendered = err.render();
    assert!(!rendered.contains("Runfile"), "unexpected filename in:\n{rendered}");
    assert!(rendered.contains("-->"), "location arrow missing in:\n{rendered}");
}

#[test]
fn test_source_line_and_caret_present() {
    let input = "\"unclosed string here";
    let err = parse_err(input, Some("test.run"));
    let rendered = err.render();
    assert!(rendered.contains("unclosed string here"), "source line missing in:\n{rendered}");
    assert!(rendered.contains('^'), "caret missing in:\n{rendered}");
}

#[test]
fn test_no_raw_rule_names_in_message() {
    let inputs = ["\"unclosed", ",leading_comma"];
    for input in inputs {
        let err = parse_err(input, None);
        assert!(!err.message.contains("Rule::"), "raw rule name in message for `{input}`: {}", err.message);
    }
}

#[test]
fn test_pos_location_extracted() {
    let err = parse_err("\"unclosed", Some("f"));
    assert!(err.line > 0, "line should be positive");
    assert!(err.col > 0, "col should be positive");
}

#[test]
fn test_multiline_error_points_to_correct_line() {
    let input = "ok() echo hello\n\"unclosed";
    let err = parse_err(input, None);
    assert_eq!(err.line, 2, "error should point to second line");
    assert!(
        err.source_line.as_deref().unwrap_or("").contains("unclosed"),
        "source_line should contain the bad token; got: {:?}",
        err.source_line
    );
}

#[test]
fn test_hint_is_clean_when_present() {
    let err = parse_err("\"unclosed", None);
    if let Some(ref hint) = err.hint {
        assert!(!hint.contains("Rule::"), "raw rule name in hint: {hint}");
    }
}

const BAD_INPUT: &str = "\"unclosed string";

#[test]
fn test_parse_error_display_has_location_arrow() {
    let s = parse_err(BAD_INPUT, Some("Runfile")).render();
    assert!(s.contains("-->"), "missing location arrow in:\n{s}");
}

#[test]
fn test_parse_error_display_has_source_line() {
    let s = parse_err(BAD_INPUT, Some("Runfile")).render();
    assert!(s.contains("unclosed string"), "source line missing in:\n{s}");
}

#[test]
fn test_parse_error_display_has_caret() {
    let s = parse_err(BAD_INPUT, Some("Runfile")).render();
    assert!(s.contains('^'), "caret missing in:\n{s}");
}

#[test]
fn test_parse_error_no_raw_rule_names() {
    let err = parse_err(BAD_INPUT, None);
    assert!(!err.message.contains("Rule::"), "raw rule name in message: {}", err.message);
}

#[test]
fn rendered_error_shows_line_and_caret_exactly() {
    let s = parse_err("ok() echo hi\n\"oops", Some("Runfile")).render();
    assert!(s.starts_with("error: "));
    assert!(s.contains("\n  --> Runfile:2:"));
    assert!(s.contains("\n   2 | \"oops\n"));
}
