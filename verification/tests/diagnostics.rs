use lean_mcp_server::json::{parse_json, Json};
use lean_mcp_server::tools::diagnostics::{
    extract_failed_dependency_paths, is_build_stderr, process_diagnostics, severity_name,
};
use lean_mcp_server::tools::symbol_resolve::search_symbols;

/// A JSON value, from its text.
fn j(text: &str) -> Json {
    parse_json(text).unwrap()
}

#[test]
fn build_stderr_detected_with_lake_setup() {
    assert!(is_build_stderr("lake setup-file: error processing..."));
}

#[test]
fn build_stderr_detected_with_error_pattern() {
    assert!(is_build_stderr(
        "error: Mathlib/Tactic/Ring.lean:42:5: some error"
    ));
}

#[test]
fn build_stderr_not_detected_for_normal_message() {
    assert!(!is_build_stderr("unknown identifier 'foo'"));
}

#[test]
fn extract_deps_from_build_stderr() {
    let msg = "error: Mathlib/Tactic/Ring.lean:42:5: foo\n\
               warning: Mathlib/Data/Nat.lean:10:1: bar\n\
               error: Mathlib/Tactic/Ring.lean:50:3: baz";
    let deps = extract_failed_dependency_paths(msg);
    assert_eq!(
        deps,
        vec!["Mathlib/Data/Nat.lean", "Mathlib/Tactic/Ring.lean"]
    );
}

#[test]
fn extract_deps_empty_for_normal_message() {
    let deps = extract_failed_dependency_paths("unknown identifier 'foo'");
    assert!(deps.is_empty());
}

#[test]
fn severity_name_maps_all_known_values() {
    assert_eq!(severity_name(1), "error");
    assert_eq!(severity_name(2), "warning");
    assert_eq!(severity_name(3), "info");
    assert_eq!(severity_name(4), "hint");
    assert_eq!(severity_name(99), "unknown(99)");
}

#[test]
fn process_diagnostics_returns_filtered_items() {
    let diags = vec![
        j(
            r##"{
                "range": {"start": {"line": 4, "character": 2}, "end": {"line": 4, "character": 10}},
                "severity": 1,
                "message": "unknown identifier"
            }"##,
        ),
        j(
            r##"{
                "range": {"start": {"line": 6, "character": 0}, "end": {"line": 6, "character": 5}},
                "severity": 2,
                "message": "unused variable"
            }"##,
        ),
    ];
    let result = process_diagnostics(&diags, true, None);
    assert!(result.success);
    assert_eq!(result.items.len(), 2);
    assert_eq!(result.items[0].severity, "error");
    assert_eq!(result.items[0].line, 5); // 0-indexed + 1
    assert_eq!(result.items[0].column, 3);
    assert_eq!(result.items[1].severity, "warning");
}

#[test]
fn process_diagnostics_handles_build_stderr_extraction() {
    let diags = vec![
        j(
            r##"{
                "range": {"start": {"line": 0, "character": 0}, "end": {"line": 0, "character": 0}},
                "severity": 1,
                "message": "error: Mathlib/Tactic/Ring.lean:42:5: build failure"
            }"##,
        ),
        j(
            r##"{
                "range": {"start": {"line": 9, "character": 4}, "end": {"line": 9, "character": 10}},
                "severity": 1,
                "message": "type mismatch"
            }"##,
        ),
    ];
    let result = process_diagnostics(&diags, false, None);
    assert!(!result.success);
    assert_eq!(result.failed_dependencies, vec!["Mathlib/Tactic/Ring.lean"]);
    // Build stderr item at (1,1) should be excluded
    assert_eq!(result.items.len(), 1);
    assert_eq!(result.items[0].message, "type mismatch");
}

#[test]
fn process_diagnostics_severity_filtering() {
    let diags = vec![
        j(
            r##"{
                "range": {"start": {"line": 0, "character": 0}, "end": {"line": 0, "character": 5}},
                "severity": 1,
                "message": "error msg"
            }"##,
        ),
        j(
            r##"{
                "range": {"start": {"line": 1, "character": 0}, "end": {"line": 1, "character": 5}},
                "severity": 2,
                "message": "warning msg"
            }"##,
        ),
        j(
            r##"{
                "range": {"start": {"line": 2, "character": 0}, "end": {"line": 2, "character": 5}},
                "severity": 3,
                "message": "info msg"
            }"##,
        ),
    ];
    let result = process_diagnostics(&diags, true, Some("warning"));
    assert_eq!(result.items.len(), 1);
    assert_eq!(result.items[0].severity, "warning");
    assert_eq!(result.items[0].message, "warning msg");
}

#[test]
fn process_diagnostics_uses_full_range_if_present() {
    let diags = vec![j(
        r##"{
            "range": {"start": {"line": 0, "character": 0}, "end": {"line": 0, "character": 5}},
            "fullRange": {"start": {"line": 10, "character": 3}, "end": {"line": 12, "character": 0}},
            "severity": 1,
            "message": "test"
        }"##,
    )];
    let result = process_diagnostics(&diags, true, None);
    assert_eq!(result.items[0].line, 11); // fullRange line 10 + 1
    assert_eq!(result.items[0].column, 4); // fullRange char 3 + 1
}

#[test]
fn diagnostics_search_symbols_finds_top_level() {
    let symbols = vec![
        j(r##"{"name": "foo", "kind": 12}"##),
        j(r##"{"name": "bar", "kind": 6}"##),
    ];
    let found = search_symbols(&symbols, "bar");
    assert!(found.is_some());
    assert_eq!(found.unwrap().text_member("name"), Some("bar"));
}

#[test]
fn diagnostics_search_symbols_finds_nested() {
    let symbols = vec![j(
        r##"{
            "name": "Namespace",
            "kind": 2,
            "children": [
                {"name": "innerThm", "kind": 12, "range": {"start": {"line": 5}, "end": {"line": 10}}}
            ]
        }"##,
    )];
    let found = search_symbols(&symbols, "innerThm");
    assert!(found.is_some());
    assert_eq!(found.unwrap().text_member("name"), Some("innerThm"));
}

#[test]
fn diagnostics_search_symbols_returns_none_when_missing() {
    let symbols = vec![j(r##"{"name": "foo", "kind": 12}"##)];
    assert!(search_symbols(&symbols, "missing").is_none());
}

#[test]
fn each_severity_can_be_asked_for() {
    let mut diags: Vec<Json> = [3, 1, 2, 4, 3]
        .iter()
        .enumerate()
        .map(|(i, n)| {
            j(&format!(
                r##"{{
                    "range": {{"start": {{"line": {i}, "character": 0}},
                        "end": {{"line": {i}, "character": 5}}}},
                    "severity": {n},
                    "message": "m{i}"
                }}"##
            ))
        })
        .collect();
    diags.push(j(r##"{"severity": 3, "message": "nowhere"}"##));
    let told = |severity: &str| -> Vec<String> {
        process_diagnostics(&diags, true, Some(severity))
            .items
            .into_iter()
            .map(|m| m.message)
            .collect()
    };
    assert_eq!(told("error"), vec!["m1"]);
    assert_eq!(told("warning"), vec!["m2"]);
    assert_eq!(told("information"), vec!["m0", "m4"]);
    assert_eq!(told("info"), vec!["m0", "m4"]);
    assert_eq!(told("hint"), vec!["m3"]);
    assert!(told("other").is_empty());
}

#[test]
fn a_build_is_known_by_what_failed() {
    for message in [
        "error: A/B.lean:1:2: oops",
        "noise\nWARNING: C.lean:10:20: hm",
        "error: A.lean: no place",
        "all is well",
    ] {
        assert_eq!(
            is_build_stderr(message),
            !extract_failed_dependency_paths(message).is_empty(),
            "{message}"
        );
    }
    assert!(is_build_stderr("`lake setup-file` failed"));
}
