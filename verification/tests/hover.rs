use lean_mcp_server::json::{parse_json, Json};
use lean_mcp_server::tools::hover::{
    char_offset_to_byte, diagnostic_intersects, extract_hover_content, extract_symbol_from_range,
    filter_diagnostics_by_position, strip_markdown_fences,
};

/// A JSON value, from its text.
fn j(text: &str) -> Json {
    parse_json(text).unwrap()
}

#[test]
fn strips_lean_fences() {
    assert_eq!(
        strip_markdown_fences("```lean\nNat -> Nat\n```"),
        "Nat -> Nat"
    );
}

#[test]
fn strips_bare_fences() {
    assert_eq!(strip_markdown_fences("```\nsome text\n```"), "some text");
}

#[test]
fn no_fences_passthrough() {
    assert_eq!(strip_markdown_fences("Nat -> Nat"), "Nat -> Nat");
}

#[test]
fn strips_multiple_fences() {
    let input = "```lean\nfirst\n```\n\n```lean\nsecond\n```";
    let result = strip_markdown_fences(input);
    assert_eq!(result, "first\n\nsecond");
}

#[test]
fn extracts_symbol_single_line() {
    let content = "def foo := 42";
    let range = j(r##"{ "start": {"line": 0, "character": 4}, "end": {"line": 0, "character": 7} }"##);
    assert_eq!(extract_symbol_from_range(content, Some(&range)), "foo");
}

#[test]
fn extracts_symbol_no_range() {
    assert_eq!(extract_symbol_from_range("def foo", None), "");
}

#[test]
fn extracts_symbol_out_of_bounds() {
    let content = "short";
    let range = j(r##"{ "start": {"line": 5, "character": 0}, "end": {"line": 5, "character": 3} }"##);
    assert_eq!(extract_symbol_from_range(content, Some(&range)), "");
}

#[test]
fn extracts_hover_content_with_fences() {
    let hover = j(r##"{ "contents": { "value": "```lean\nNat.add : Nat -> Nat -> Nat\n```" } }"##);
    assert_eq!(extract_hover_content(&hover), "Nat.add : Nat -> Nat -> Nat");
}

#[test]
fn extracts_hover_content_missing() {
    let hover = j(r##"{}"##);
    assert_eq!(
        extract_hover_content(&hover),
        "No hover information available."
    );
}

#[test]
fn filters_diagnostics_at_position() {
    let diags = vec![
        j(
            r##"{
                "range": {
                    "start": {"line": 5, "character": 0},
                    "end": {"line": 5, "character": 10}
                },
                "severity": 1,
                "message": "error here"
            }"##,
        ),
        j(
            r##"{
                "range": {
                    "start": {"line": 10, "character": 0},
                    "end": {"line": 10, "character": 5}
                },
                "severity": 2,
                "message": "warning elsewhere"
            }"##,
        ),
    ];
    let filtered = filter_diagnostics_by_position(&diags, 5, 3);
    assert_eq!(filtered.len(), 1);
    assert_eq!(filtered[0].text_member("message"), Some("error here"));
}

#[test]
fn filters_diagnostics_none_match() {
    let diags = vec![j(
        r##"{
            "range": {
                "start": {"line": 10, "character": 0},
                "end": {"line": 10, "character": 5}
            },
            "severity": 1,
            "message": "far away"
        }"##,
    )];
    let filtered = filter_diagnostics_by_position(&diags, 0, 0);
    assert!(filtered.is_empty());
}

#[test]
fn char_offset_ascii() {
    assert_eq!(char_offset_to_byte("hello", 0), 0);
    assert_eq!(char_offset_to_byte("hello", 3), 3);
    assert_eq!(char_offset_to_byte("hello", 5), 5);
}

#[test]
fn char_offset_beyond_len() {
    assert_eq!(char_offset_to_byte("hi", 10), 2);
}

#[test]
fn diagnostic_no_range_does_not_intersect() {
    let diag = j(r##"{"severity": 1, "message": "oops"}"##);
    assert!(!diagnostic_intersects(&diag, 0, 0));
}

#[test]
fn diagnostic_zero_length_range_exact_match() {
    let diag = j(
        r##"{
            "range": {
                "start": {"line": 3, "character": 5},
                "end": {"line": 3, "character": 5}
            }
        }"##,
    );
    assert!(diagnostic_intersects(&diag, 3, 5));
    assert!(!diagnostic_intersects(&diag, 3, 4));
    assert!(!diagnostic_intersects(&diag, 3, 6));
}

#[test]
fn stripped_text_is_plain() {
    for text in ["```lean\n```` a\n``` b ```lean", " `` ``` ` x", "``````", "a ````` b\n"] {
        let stripped = strip_markdown_fences(text);
        assert!(!stripped.contains("```"), "{text:?}");
        assert_eq!(stripped.trim(), stripped);
        assert_eq!(strip_markdown_fences(&stripped), stripped);
    }
    assert_eq!(strip_markdown_fences(" `` ``` ` x"), "``  ` x");
}
