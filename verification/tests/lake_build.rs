use lean_mcp_server::models::BuildResult;
use lean_mcp_server::tools::lake_build::{collect_errors, parse_progress, truncate_output};

#[test]
fn parse_progress_extracts_patterns() {
    let output = "[1/5] Building Module.A\n[2/5] Building Module.B\n[5/5] Done";
    let progress = parse_progress(output);
    assert_eq!(progress, vec![(1, 5), (2, 5), (5, 5)]);
}

#[test]
fn parse_progress_empty_on_no_patterns() {
    let output = "Building project...\nDone.";
    let progress = parse_progress(output);
    assert!(progress.is_empty());
}

#[test]
fn parse_progress_handles_large_numbers() {
    let output = "[150/300] Compiling Mathlib.Tactic.Ring";
    let progress = parse_progress(output);
    assert_eq!(progress, vec![(150, 300)]);
}

#[test]
fn collect_errors_finds_error_lines() {
    let output = "Building Module.A\nerror: unknown identifier 'foo'\n\
                  Building Module.B\nerror: type mismatch\nDone.";
    let errors = collect_errors(output);
    assert_eq!(errors.len(), 2);
    assert_eq!(errors[0], "error: unknown identifier 'foo'");
    assert_eq!(errors[1], "error: type mismatch");
}

#[test]
fn collect_errors_case_insensitive() {
    let output = "ERROR: something failed\nError: another failure";
    let errors = collect_errors(output);
    assert_eq!(errors.len(), 2);
}

#[test]
fn collect_errors_empty_on_success() {
    let output = "Building Module.A\n[1/1] Done";
    let errors = collect_errors(output);
    assert!(errors.is_empty());
}

#[test]
fn truncate_output_returns_last_n_lines() {
    let output = "line1\nline2\nline3\nline4\nline5";
    let result = truncate_output(output, 3);
    assert_eq!(result, "line3\nline4\nline5");
}

#[test]
fn truncate_output_returns_all_when_fewer_lines() {
    let output = "line1\nline2";
    let result = truncate_output(output, 10);
    assert_eq!(result, "line1\nline2");
}

#[test]
fn truncate_output_returns_empty_when_zero() {
    let output = "line1\nline2\nline3";
    let result = truncate_output(output, 0);
    assert_eq!(result, "");
}

#[test]
fn truncate_output_handles_empty_input() {
    let result = truncate_output("", 5);
    assert_eq!(result, "");
}

#[test]
fn build_result_success() {
    let result = BuildResult {
        success: true,
        output: "Build complete".into(),
        errors: vec![],
    };
    assert!(result.success);
    assert!(result.errors.is_empty());
}

#[test]
fn build_result_failure_with_errors() {
    let log = "Building...\nerror: unknown id\nerror: type mismatch\nDone.";
    let errors = collect_errors(log);
    let result = BuildResult {
        success: false,
        output: truncate_output(log, 20),
        errors,
    };
    assert!(!result.success);
    assert_eq!(result.errors.len(), 2);
    assert!(result.output.contains("error: unknown id"));
}

#[test]
fn build_result_output_truncation() {
    let lines: Vec<String> = (0..50).map(|i| format!("line {i}")).collect();
    let full_output = lines.join("\n");
    let truncated = truncate_output(&full_output, 5);
    let truncated_lines: Vec<&str> = truncated.lines().collect();
    assert_eq!(truncated_lines.len(), 5);
    assert_eq!(truncated_lines[0], "line 45");
    assert_eq!(truncated_lines[4], "line 49");
}

#[test]
fn build_result_clean_failure() {
    let result = BuildResult {
        success: false,
        output: "lake clean failed".into(),
        errors: vec!["lake clean failed: permission denied".into()],
    };
    assert!(!result.success);
    assert_eq!(result.errors.len(), 1);
    assert!(result.errors[0].contains("permission denied"));
}

#[test]
fn parse_progress_mixed_content() {
    let output = "Fetching cache...\n[1/10] Building A\nsome text [2/10] more text\n[10/10]";
    let progress = parse_progress(output);
    assert_eq!(progress, vec![(1, 10), (2, 10), (10, 10)]);
}

#[test]
fn parse_progress_ignores_malformed() {
    let output = "[/5] bad\n[abc/def] bad\n[3/5] good";
    let progress = parse_progress(output);
    assert_eq!(progress, vec![(3, 5)]);
}
