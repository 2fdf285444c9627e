use lean_mcp_server::json::{parse_json, Json};
use lean_mcp_server::tools::symbol_resolve::search_symbols;

/// A JSON value, from its text.
fn j(text: &str) -> Json {
    parse_json(text).unwrap()
}

#[test]
fn symbol_resolve_search_symbols_finds_top_level() {
    let symbols = vec![
        j(r##"{"name": "foo", "kind": 12}"##),
        j(r##"{"name": "bar", "kind": 6}"##),
    ];
    let found = search_symbols(&symbols, "bar");
    assert!(found.is_some());
    assert_eq!(found.unwrap().text_member("name"), Some("bar"));
}

#[test]
fn symbol_resolve_search_symbols_finds_nested() {
    let symbols = vec![j(
        r##"{
            "name": "Namespace",
            "kind": 2,
            "children": [
                {"name": "innerThm", "kind": 12, "range": {"start": {"line": 5}, "end": {"line": 10}}}
            ]
        }"##,
    )];
    let found = search_symbols(&symbols, "innerThm");
    assert!(found.is_some());
    assert_eq!(found.unwrap().text_member("name"), Some("innerThm"));
}

#[test]
fn symbol_resolve_search_symbols_returns_none_when_missing() {
    let symbols = vec![j(r##"{"name": "foo", "kind": 12}"##)];
    assert!(search_symbols(&symbols, "missing").is_none());
}

#[test]
fn search_symbols_empty_list() {
    assert!(search_symbols(&[], "anything").is_none());
}

#[test]
fn search_symbols_deeply_nested() {
    let symbols = vec![j(
        r##"{
            "name": "A",
            "kind": 2,
            "children": [{
                "name": "B",
                "kind": 2,
                "children": [{
                    "name": "deep",
                    "kind": 12
                }]
            }]
        }"##,
    )];
    let found = search_symbols(&symbols, "deep");
    assert!(found.is_some());
    assert_eq!(found.unwrap().text_member("name"), Some("deep"));
}
