use lean_mcp_server::json::{json_of, parse_json, Json};
use lean_mcp_server::patterns::{find_group, is_header_line, is_match, DECLARATION_PATTERN};
use lean_mcp_server::tools::completions::extract_prefix;
use lean_mcp_server::tools::lake_build::{collect_errors, parse_progress};
use lean_mcp_server::tools::profile::{extract_line_times, ProofItem, TraceEntry};

#[test]
fn parse_json_tells_kinds_of_values_apart() {
    let v = parse_json(r#"{"b": [null, true, 1, -2, 1.50, "xé"], "a": {}}"#).unwrap();
    assert_eq!(
        v,
        Json::Object(vec![
            ("a".to_string(), Json::Object(vec![])),
            (
                "b".to_string(),
                Json::Array(vec![
                    Json::Null,
                    Json::Bool(true),
                    Json::PosInt(1),
                    Json::NegInt(-2),
                    Json::Float("1.5".to_string()),
                    Json::Str("x\u{e9}".to_string()),
                ])
            ),
        ])
    );
}

#[test]
fn parse_json_refuses_what_is_no_json() {
    assert_eq!(parse_json("[1,").unwrap_err(), "EOF while parsing a value at line 1 column 3");
}

#[test]
fn json_of_keeps_the_last_of_two_equal_keys() {
    let v: serde_json::Value = serde_json::from_str(r#"{"a": 1, "a": 2}"#).unwrap();
    assert_eq!(json_of(v), Json::Object(vec![("a".to_string(), Json::PosInt(2))]));
}

#[test]
fn patterns_match_with_groups() {
    assert!(is_match(r"^a+$", "aaa"));
    assert!(!is_match(r"^a+$", "aab"));
    assert!(!is_match(r"(", "("));
    assert_eq!(find_group(r"(\d+)-(\w)?", "x 12-", 1), Some("12".to_string()));
    assert_eq!(find_group(r"(\d+)-(\w)?", "x 12-", 2), None);
    assert_eq!(find_group(r"(\d+)-(\w)?", "x 12-", 3), None);
}

#[test]
fn header_lines() {
    assert!(is_header_line("import Mathlib"));
    assert!(is_header_line("open\tNat"));
    assert!(!is_header_line(" import Mathlib"));
    assert!(!is_header_line("imports"));
    assert!(!is_header_line("import"));
}

#[test]
fn declared_names() {
    let name = |line| find_group(DECLARATION_PATTERN, line, 2);
    assert_eq!(name("  private  theorem foo.bar : True"), Some("foo.bar".to_string()));
    assert_eq!(name("def\u{a0}x := 1"), Some("x".to_string()));
    assert_eq!(name("private theorem"), None);
    assert_eq!(name("theoremfoo bar"), None);
    assert_eq!(name("protected theorem foo"), None);
}

#[test]
fn words_are_compared_in_lower_case() {
    assert_eq!(extract_prefix("x := Nat.ADD\u{c4}", 1, 15), "add\u{e4}");
    assert_eq!(collect_errors("fine\nAn ERROR here\nno"), vec!["An ERROR here".to_string()]);
}

#[test]
fn progress_is_read_from_every_match() {
    assert_eq!(parse_progress("[1/3] a\n[2/3] b\n[x/3] c"), vec![(1, 3), (2, 3)]);
}

#[test]
fn names_of_theorems_are_taken_literally() {
    let traces = |name: &str| {
        vec![
            TraceEntry {
                depth: 0,
                class: "Elab.definition.value".into(),
                seconds: "0.100".into(),
                message: name.into(),
            },
            TraceEntry {
                depth: 1,
                class: "Elab.step".into(),
                seconds: "0.050".into(),
                message: "simp".into(),
            },
        ]
    };
    let items = vec![ProofItem { line_no: 2, content: "simp".into(), is_bullet: false }];
    assert_eq!(extract_line_times(&traces("a.b"), "a.b", &items).lines, vec![(2, 1)]);
    assert_eq!(extract_line_times(&traces("axb"), "a.b", &items).lines, vec![]);
}
