use lean_mcp_server::json::{parse_json, Json};
use lean_mcp_server::tools::code_actions::{
    convert_text_edit, extract_diagnostic_ranges, extract_edits,
};

/// A JSON value, from its text.
fn j(text: &str) -> Json {
    parse_json(text).unwrap()
}

#[test]
fn extract_ranges_filters_by_target_line() {
    let diags = vec![
        j(
            r##"{
                "range": {
                    "start": {"line": 3, "character": 0},
                    "end": {"line": 3, "character": 10}
                }
            }"##,
        ),
        j(
            r##"{
                "range": {
                    "start": {"line": 5, "character": 2},
                    "end": {"line": 5, "character": 8}
                }
            }"##,
        ),
    ];
    let ranges = extract_diagnostic_ranges(&diags, 3);
    assert_eq!(ranges.len(), 1);
    assert_eq!(ranges[0], (3, 0, 3, 10));
}

#[test]
fn extract_ranges_includes_multiline_diagnostic_spanning_target() {
    let diags = vec![j(
        r##"{
            "range": {
                "start": {"line": 2, "character": 0},
                "end": {"line": 6, "character": 5}
            }
        }"##,
    )];
    let ranges = extract_diagnostic_ranges(&diags, 4);
    assert_eq!(ranges.len(), 1);
    assert_eq!(ranges[0], (2, 0, 6, 5));
}

#[test]
fn extract_ranges_empty_when_no_match() {
    let diags = vec![j(
        r##"{
            "range": {
                "start": {"line": 10, "character": 0},
                "end": {"line": 10, "character": 5}
            }
        }"##,
    )];
    let ranges = extract_diagnostic_ranges(&diags, 0);
    assert!(ranges.is_empty());
}

#[test]
fn convert_text_edit_converts_0_to_1_indexed() {
    let edit = j(
        r##"{
            "range": {
                "start": {"line": 9, "character": 4},
                "end": {"line": 9, "character": 12}
            },
            "newText": "replacement"
        }"##,
    );
    let result = convert_text_edit(&edit).unwrap();
    assert_eq!(result.new_text, "replacement");
    assert_eq!(result.start_line, 10);
    assert_eq!(result.start_column, 5);
    assert_eq!(result.end_line, 10);
    assert_eq!(result.end_column, 13);
}

#[test]
fn convert_text_edit_returns_none_without_range() {
    let edit = j(r##"{"newText": "foo"}"##);
    assert!(convert_text_edit(&edit).is_none());
}

#[test]
fn convert_text_edit_returns_none_without_new_text() {
    let edit = j(
        r##"{
            "range": {
                "start": {"line": 0, "character": 0},
                "end": {"line": 0, "character": 3}
            }
        }"##,
    );
    assert!(convert_text_edit(&edit).is_none());
}

#[test]
fn extract_edits_from_document_changes() {
    let action = j(
        r##"{
            "title": "Fix",
            "edit": {
                "documentChanges": [{
                    "edits": [
                        {
                            "range": {
                                "start": {"line": 1, "character": 0},
                                "end": {"line": 1, "character": 5}
                            },
                            "newText": "hello"
                        },
                        {
                            "range": {
                                "start": {"line": 3, "character": 2},
                                "end": {"line": 3, "character": 7}
                            },
                            "newText": "world"
                        }
                    ]
                }]
            }
        }"##,
    );
    let edits = extract_edits(&action);
    assert_eq!(edits.len(), 2);
    assert_eq!(edits[0].new_text, "hello");
    assert_eq!(edits[0].start_line, 2); // 1-indexed
    assert_eq!(edits[1].new_text, "world");
    assert_eq!(edits[1].start_line, 4); // 1-indexed
}

#[test]
fn extract_edits_from_changes_map() {
    let action = j(
        r##"{
            "title": "Fix",
            "edit": {
                "changes": {
                    "file:///test/Main.lean": [{
                        "range": {
                            "start": {"line": 0, "character": 0},
                            "end": {"line": 0, "character": 3}
                        },
                        "newText": "new"
                    }]
                }
            }
        }"##,
    );
    let edits = extract_edits(&action);
    assert_eq!(edits.len(), 1);
    assert_eq!(edits[0].new_text, "new");
    assert_eq!(edits[0].start_line, 1);
    assert_eq!(edits[0].start_column, 1);
}

#[test]
fn extract_edits_empty_when_no_edit_field() {
    let action = j(r##"{"title": "No edits"}"##);
    let edits = extract_edits(&action);
    assert!(edits.is_empty());
}

#[test]
fn extract_ranges_prefers_full_range() {
    let diags = vec![j(
        r##"{
            "range": {
                "start": {"line": 10, "character": 0},
                "end": {"line": 10, "character": 5}
            },
            "fullRange": {
                "start": {"line": 3, "character": 0},
                "end": {"line": 7, "character": 10}
            }
        }"##,
    )];
    // Target line 5 is within fullRange (3-7) but not within range (10-10).
    let ranges = extract_diagnostic_ranges(&diags, 5);
    assert_eq!(ranges.len(), 1);
    assert_eq!(ranges[0], (3, 0, 7, 10));
}
