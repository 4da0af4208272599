use run::output_file::{needs_truncation, output_tail, truncation_notice, OUTPUT_TRUNCATE_CHARS};

/// The notice an agent sees for a long output saved at `path`.
fn shown(output: &str, path: &str) -> String {
    let (tail, bytes) = output_tail(output);
    truncation_notice(output.len(), bytes, path, &tail)
}

#[test]
fn test_short_output_unchanged() {
    let output = "line1\nline2\nline3";
    assert!(!needs_truncation(output));
}

#[test]
fn test_exactly_threshold_unchanged() {
    let output = "x".repeat(OUTPUT_TRUNCATE_CHARS);
    assert!(!needs_truncation(&output));
    assert!(needs_truncation(&"x".repeat(OUTPUT_TRUNCATE_CHARS + 1)));
}

#[test]
fn test_long_output_truncated() {
    let lines: Vec<String> = (1..=500).map(|i| format!("line{i}")).collect();
    let output = lines.join("\n");
    assert!(output.len() > OUTPUT_TRUNCATE_CHARS);
    assert!(needs_truncation(&output));
    let display = shown(&output, "/tmp/run-output-1.txt");
    assert!(display.contains(&format!("{} bytes", output.len())));
    assert!(display.contains("showing last"));
    assert!(display.contains("[Full output saved to: /tmp/run-output-1.txt]"));
    let tail_part = display.split("\n\n").last().expect("Should have tail part");
    assert!(tail_part.contains("line500"));
    assert!(!tail_part.contains("line1\n"));
}

#[test]
fn test_single_long_line_truncated() {
    let output = "A".repeat(5000);
    assert!(needs_truncation(&output));
    let display = shown(&output, "/tmp/out.txt");
    assert!(display.contains("5000 bytes"));
    let tail_part = display.split("\n\n").last().expect("Should have tail part");
    assert!(tail_part.starts_with("..."));
    assert!(tail_part.len() <= OUTPUT_TRUNCATE_CHARS + 4);
}

#[test]
fn tail_keeps_whole_lines_within_the_budget() {
    // 100 lines of 20 bytes: each costs 21 bytes, so 57 fit in 1200.
    let lines: Vec<String> = (0..100).map(|i| format!("{:020}", i)).collect();
    let output = lines.join("\n");
    let (tail, bytes) = output_tail(&output);
    assert_eq!(tail, lines[43..].join("\n"));
    assert_eq!(bytes, 57 * 21 - 1);
}

#[test]
fn cut_inside_a_character_moves_to_the_next_boundary() {
    let output = format!("{}{}", "a".repeat(800), "é".repeat(600));
    assert_eq!(output.len(), 2000);
    let (tail, bytes) = output_tail(&output);
    assert_eq!(tail, format!("...{}", "é".repeat(600)));
    assert_eq!(bytes, 1203);
    // 2001 bytes: the cut falls 801 bytes in, inside a three-byte character, so the
    // whole character is left out.
    let odd = format!("{}{}b", "a".repeat(800), "€".repeat(400));
    assert_eq!(odd.len(), 2001);
    let (tail, bytes) = output_tail(&odd);
    assert_eq!(tail, format!("...{}b", "€".repeat(399)));
    assert_eq!(bytes, 1201);
}

#[test]
fn long_line_starting_with_a_wide_character_is_cut_after_it() {
    let output = format!("€{}", "a".repeat(1198));
    assert_eq!(output.len(), 1201);
    assert!(needs_truncation(&output));
    let long = run::output_file::long_output(&output, "/tmp/o.txt".to_string());
    assert_eq!(long.total_bytes, 1201);
    assert!(long.display_output.starts_with("[Output truncated: 1201 bytes, showing last 1201 bytes]\n"));
    assert!(long.display_output.ends_with(&format!("\n\n...{}", "a".repeat(1198))));
}

#[test]
fn processed_output_keeps_short_and_notes_long() {
    let short = run::output_file::short_output("ok\n");
    assert_eq!(short.display_output, "ok\n");
    assert!(short.file_path.is_none());
    assert_eq!(short.total_bytes, 3);
    let long_text = "A".repeat(5000);
    let long = run::output_file::long_output(&long_text, "/tmp/f.txt".to_string());
    assert_eq!(long.file_path.as_deref(), Some("/tmp/f.txt"));
    assert_eq!(long.total_bytes, 5000);
    assert!(long.display_output.starts_with("[Output truncated: 5000 bytes, showing last 1203 bytes]\n[Full output saved to: /tmp/f.txt]\n\n..."));
}

#[test]
fn output_for_agent_keeps_short_and_notes_long() {
    let short = run::output_file::output_for_agent("ok", None);
    assert_eq!(short.display_output, "ok");
    assert!(short.file_path.is_none());
    assert_eq!(short.total_bytes, 2);
    let text = "x".repeat(1300);
    let long = run::output_file::output_for_agent(&text, Some("/tmp/r.txt".to_string()));
    assert_eq!(long.total_bytes, 1300);
    assert_eq!(long.file_path, Some("/tmp/r.txt".to_string()));
    assert!(long.display_output.starts_with("[Output truncated: 1300 bytes, showing last 1203 bytes]\n[Full output saved to: /tmp/r.txt]\n\n..."));
}
