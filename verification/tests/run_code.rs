use lean_mcp_server::json::{parse_json, Json};
use lean_mcp_server::tools::run_code::to_diagnostic_messages;

/// A JSON value, from its text.
fn j(text: &str) -> Json {
    parse_json(text).unwrap()
}

#[test]
fn run_code_to_diagnostic_messages_converts_correctly() {
    let diags = vec![
        j(
            r##"{
                "range": {"start": {"line": 4, "character": 2}, "end": {"line": 4, "character": 10}},
                "severity": 1,
                "message": "unknown id"
            }"##,
        ),
        j(
            r##"{
                "fullRange": {"start": {"line": 10, "character": 3}, "end": {"line": 12, "character": 0}},
                "range": {"start": {"line": 0, "character": 0}, "end": {"line": 0, "character": 5}},
                "severity": 3,
                "message": "info msg"
            }"##,
        ),
    ];

    let items = to_diagnostic_messages(&diags, 0);
    assert_eq!(items.len(), 2);
    assert_eq!(items[0].severity, "error");
    assert_eq!(items[0].line, 5);
    assert_eq!(items[0].column, 3);
    // fullRange takes precedence
    assert_eq!(items[1].severity, "info");
    assert_eq!(items[1].line, 11);
    assert_eq!(items[1].column, 4);
}

#[test]
fn to_diagnostic_messages_skips_missing_range() {
    let diags = vec![j(r##"{ "severity": 1, "message": "no range" }"##)];
    let items = to_diagnostic_messages(&diags, 0);
    assert!(items.is_empty());
}

#[test]
fn to_diagnostic_messages_filters_context_lines() {
    // Simulate context file with 10 lines; diagnostics from context (line 3)
    // and snippet (line 12) regions.
    let diags = vec![
        j(
            r##"{
                "range": {"start": {"line": 3, "character": 0}, "end": {"line": 3, "character": 5}},
                "severity": 1,
                "message": "context error"
            }"##,
        ),
        j(
            r##"{
                "range": {"start": {"line": 12, "character": 4}, "end": {"line": 12, "character": 10}},
                "severity": 1,
                "message": "snippet error"
            }"##,
        ),
    ];

    let items = to_diagnostic_messages(&diags, 10);
    // Only the snippet diagnostic should remain.
    assert_eq!(items.len(), 1);
    assert_eq!(items[0].message, "snippet error");
    // Line 12 (0-indexed) - 10 context lines + 1 (1-indexed) = 3
    assert_eq!(items[0].line, 3);
    assert_eq!(items[0].column, 5);
}

#[test]
fn to_diagnostic_messages_adjusts_line_numbers_with_context() {
    // Context has 5 lines; diagnostic at 0-indexed line 5 => snippet line 1.
    let diags = vec![j(
        r##"{
            "range": {"start": {"line": 5, "character": 0}, "end": {"line": 5, "character": 5}},
            "severity": 2,
            "message": "warning in snippet"
        }"##,
    )];

    let items = to_diagnostic_messages(&diags, 5);
    assert_eq!(items.len(), 1);
    assert_eq!(items[0].line, 1);
    assert_eq!(items[0].severity, "warning");
}
