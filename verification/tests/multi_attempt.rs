use lean_mcp_server::json::{parse_json, Json};
use lean_mcp_server::error::LeanToolError;
use lean_mcp_server::tools::multi_attempt::{
    filter_diagnostics_by_line_range, prepare_edit, resolve_column, to_diagnostic_messages,
};

/// A JSON value, from its text.
fn j(text: &str) -> Json {
    parse_json(text).unwrap()
}

#[test]
fn resolve_column_none_finds_first_non_ws() {
    assert_eq!(resolve_column("  simp", None).unwrap(), 2);
    assert_eq!(resolve_column("simp", None).unwrap(), 0);
    assert_eq!(resolve_column("    ", None).unwrap(), 0);
}

#[test]
fn resolve_column_some_converts_to_0_indexed() {
    assert_eq!(resolve_column("  simp", Some(3)).unwrap(), 2);
    assert_eq!(resolve_column("  simp", Some(1)).unwrap(), 0);
}

#[test]
fn resolve_column_zero_errors() {
    let err = resolve_column("simp", Some(0)).unwrap_err();
    match err {
        LeanToolError::ColumnOutOfRange { column, .. } => assert_eq!(column, 0),
        other => panic!("expected ColumnOutOfRange, got: {other:?}"),
    }
}

#[test]
fn prepare_edit_single_line_snippet() {
    let (snippet_str, change, goal_line, goal_col) = prepare_edit("  sorry", 2, "simp", 3, 2);

    assert_eq!(snippet_str, "simp");
    assert_eq!(goal_line, 1);
    assert_eq!(goal_col, 6);
    let start = change.get("range").and_then(|r| r.get("start")).unwrap();
    assert_eq!(start.get("line").and_then(|n| n.as_i64()), Some(1));
    assert_eq!(start.get("character").and_then(|n| n.as_i64()), Some(2));
}

#[test]
fn prepare_edit_multiline_snippet() {
    let (snippet_str, _change, goal_line, goal_col) =
        prepare_edit("  sorry", 2, "simp\nexact h", 3, 2);

    assert_eq!(snippet_str, "simp\nexact h");
    assert_eq!(goal_line, 2);
    assert_eq!(goal_col, 9);
}

#[test]
fn prepare_edit_strips_trailing_newline() {
    let (snippet_str, _, _, _) = prepare_edit("  sorry", 2, "simp\n", 3, 2);
    assert_eq!(snippet_str, "simp");
}

#[test]
fn filter_diagnostics_keeps_intersecting() {
    let diags = vec![
        j(
            r##"{
                "range": {"start": {"line": 5}, "end": {"line": 7}},
                "severity": 1,
                "message": "in range"
            }"##,
        ),
        j(
            r##"{
                "range": {"start": {"line": 0}, "end": {"line": 1}},
                "severity": 2,
                "message": "out of range"
            }"##,
        ),
    ];
    let filtered = filter_diagnostics_by_line_range(&diags, 3, 8);
    assert_eq!(filtered.len(), 1);
    assert_eq!(filtered[0].text_member("message"), Some("in range"));
}

#[test]
fn filter_diagnostics_empty_input() {
    let filtered = filter_diagnostics_by_line_range(&[], 0, 10);
    assert!(filtered.is_empty());
}

#[test]
fn multi_attempt_to_diagnostic_messages_converts_correctly() {
    let diags = vec![j(
        r##"{
            "range": {"start": {"line": 4, "character": 2}, "end": {"line": 4, "character": 10}},
            "severity": 1,
            "message": "unknown id"
        }"##,
    )];
    let items = to_diagnostic_messages(&diags);
    assert_eq!(items.len(), 1);
    assert_eq!(items[0].severity, "error");
    assert_eq!(items[0].line, 5);
    assert_eq!(items[0].column, 3);
}
