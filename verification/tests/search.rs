use lean_mcp_server::json::{parse_json, Json};
use lean_mcp_server::tools::search::{
    extract_name_from_url, join_dot_segments, parse_leanfinder_results, parse_leansearch_results,
    parse_loogle_results, parse_premise_results, parse_state_search_results, value_as_string,
    word_value,
};

/// A JSON value, from its text.
fn j(text: &str) -> Json {
    parse_json(text).unwrap()
}

/// A `serde_json` value, from its text.
fn value(text: &str) -> serde_json::Value {
    serde_json::from_str(text).unwrap()
}

#[test]
fn join_dot_segments_from_array() {
    let v = j(r##"["Nat", "add_comm"]"##);
    assert_eq!(join_dot_segments(&v), "Nat.add_comm");
}

#[test]
fn join_dot_segments_from_string() {
    let v = j(r##""Nat.add_comm""##);
    assert_eq!(join_dot_segments(&v), "Nat.add_comm");
}

#[test]
fn join_dot_segments_from_non_string() {
    let v = j(r##"42"##);
    assert_eq!(join_dot_segments(&v), "");
}

#[test]
fn join_dot_segments_single_element() {
    let v = j(r##"["continuous_id"]"##);
    assert_eq!(join_dot_segments(&v), "continuous_id");
}

#[test]
fn extract_name_from_url_with_pattern_query() {
    assert_eq!(
        extract_name_from_url(
            "https://leanprover-community.github.io/mathlib4_docs/find/?pattern=mul_comm#doc"
        ),
        Some("mul_comm".to_string())
    );
}

#[test]
fn extract_name_from_url_without_pattern() {
    // URLs without pattern= should return None
    assert_eq!(
        extract_name_from_url(
            "https://leanprover-community.github.io/mathlib4_docs/Mathlib/Algebra/Nat.add_comm.html"
        ),
        None
    );
}

#[test]
fn extract_name_from_url_no_match() {
    assert_eq!(extract_name_from_url("https://example.com/SomeName"), None);
}

#[test]
fn parse_leansearch_empty_results() {
    let json = value(r##"{"results": [[]]}"##);
    assert!(parse_leansearch_results(json).is_empty());
}

#[test]
fn parse_loogle_empty_hits() {
    let json = j(r##"{"hits": []}"##);
    assert!(parse_loogle_results(&json, 10).is_empty());
}

#[test]
fn parse_state_search_non_array() {
    let json = j(r##"{"error": "something"}"##);
    assert!(parse_state_search_results(&json).is_empty());
}

#[test]
fn parse_premise_results_with_strings() {
    let json = j(r##"["foo", "bar", "baz"]"##);
    let results = parse_premise_results(&json);
    assert_eq!(results.len(), 3);
    assert_eq!(results[0].name, "foo");
    assert_eq!(results[2].name, "baz");
}

#[test]
fn parse_premise_results_empty_array() {
    let json = j(r##"[]"##);
    assert!(parse_premise_results(&json).is_empty());
}

#[test]
fn leansearch_name_dot_joined() {
    let json = value(
        r##"{
            "results": [[
                {
                    "result": {
                        "name": ["Nat", "add", "comm"],
                        "module_name": ["Init", "Data", "Nat"],
                        "kind": "theorem",
                        "type": "forall (n m : Nat), n + m = m + n"
                    }
                }
            ]]
        }"##,
    );
    let results = parse_leansearch_results(json);
    assert_eq!(results.len(), 1);
    // Segments dot-joined: "Nat" + "." + "add" + "." + "comm"
    assert_eq!(results[0].name, "Nat.add.comm");
}

#[test]
fn leanfinder_results_key_extraction() {
    let json = j(
        r##"{
            "results": [
                {
                    "url": "https://leanprover-community.github.io/mathlib4_docs/find/?pattern=Nat.succ#doc",
                    "formal_statement": "def Nat.succ",
                    "informal_statement": "Successor"
                }
            ]
        }"##,
    );
    let results = parse_leanfinder_results(&json);
    assert_eq!(results.len(), 1);
    assert_eq!(results[0].full_name, "Nat.succ");
}

#[test]
fn leanfinder_skips_non_pattern_urls() {
    let json = j(
        r##"{
            "results": [
                {
                    "url": "https://leanprover-community.github.io/mathlib4_docs/Mathlib/Foo.html",
                    "formal_statement": "def Foo",
                    "informal_statement": "A definition"
                }
            ]
        }"##,
    );
    let results = parse_leanfinder_results(&json);
    assert!(
        results.is_empty(),
        "URLs without pattern= should be skipped"
    );
}

#[test]
fn leanfinder_filters_by_url_not_corpus() {
    let json = j(
        r##"{
            "results": [
                {
                    "url": "https://leanprover-community.github.io/lean4_docs/find/?pattern=True#doc",
                    "formal_statement": "def True",
                    "informal_statement": "The true proposition"
                },
                {
                    "url": "https://leanprover-community.github.io/mathlib4_docs/find/?pattern=mul_comm#doc",
                    "formal_statement": "theorem mul_comm",
                    "informal_statement": "Commutativity"
                }
            ]
        }"##,
    );
    let results = parse_leanfinder_results(&json);
    assert_eq!(results.len(), 1);
    assert_eq!(results[0].full_name, "mul_comm");
}

#[test]
fn leanfinder_fallback_top_level_array() {
    let json = j(
        r##"[
            {
                "url": "https://leanprover-community.github.io/mathlib4_docs/find/?pattern=add_comm#doc",
                "formal_statement": "theorem add_comm",
                "informal_statement": "Addition commutes"
            }
        ]"##,
    );
    let results = parse_leanfinder_results(&json);
    assert_eq!(results.len(), 1);
    assert_eq!(results[0].full_name, "add_comm");
}

#[test]
fn value_as_string_from_string() {
    let v = value(r##""Continuous id""##);
    assert_eq!(value_as_string(v), "Continuous id");
}

#[test]
fn value_as_string_from_non_string() {
    let v = value("42");
    assert_eq!(value_as_string(v), "42");
}

#[test]
fn value_as_string_from_array() {
    let v = value(r##"["Continuous ", "g"]"##);
    // Non-string values are JSON-serialized
    assert_eq!(value_as_string(v), "[\"Continuous \",\"g\"]");
}

#[test]
fn value_as_string_from_object() {
    let v = value(r##"{"b": null, "a": [true, -1, 1.5, "x\ny"]}"##);
    assert_eq!(value_as_string(v), r##"{"a":[true,-1,1.5,"x\ny"],"b":null}"##);
}

#[test]
fn word_value_takes_the_text_of_what_is_no_string() {
    assert_eq!(word_value(&j(r##""s""##), "text".to_string()), "s");
    assert_eq!(word_value(&j("null"), "text".to_string()), "text");
}

#[test]
fn leansearch_type_as_raw_value() {
    let json = value(
        r##"{
            "results": [[
                {
                    "result": {
                        "name": ["Foo"],
                        "module_name": ["Bar"],
                        "kind": "def",
                        "type": "Nat → Nat"
                    }
                }
            ]]
        }"##,
    );
    let results = parse_leansearch_results(json);
    assert_eq!(results[0].type_, Some("Nat → Nat".to_string()));
}

#[test]
fn leansearch_type_non_string_serialized() {
    let json = value(
        r##"{
            "results": [[
                {
                    "result": {
                        "name": ["Foo"],
                        "module_name": ["Bar"],
                        "kind": "def",
                        "type": ["Continuous ", "f"]
                    }
                }
            ]]
        }"##,
    );
    let results = parse_leansearch_results(json);
    // Non-string type values are JSON-serialized
    assert!(results[0].type_.is_some());
    assert_eq!(results[0].type_, Some("[\"Continuous \",\"f\"]".to_string()));
}

#[test]
fn leansearch_skips_what_has_no_name_or_module() {
    let json = value(
        r##"{"results": [[
            {"result": {"name": "A"}},
            {"result": {"module_name": "M"}},
            {"other": 1},
            7,
            {"result": {"name": "A.b", "module_name": ["M", 1, "N"]}}
        ], [{"result": {"name": "late", "module_name": "M"}}]]}"##,
    );
    let results = parse_leansearch_results(json);
    assert_eq!(results.len(), 1);
    assert_eq!(results[0].name, "A.b");
    assert_eq!(results[0].module_name, "M.N");
    assert_eq!(results[0].kind, None);
    assert_eq!(results[0].type_, None);
}
