use lean_mcp_server::models::CompletionItem;
use lean_mcp_server::tools::completions::{extract_prefix, sort_completions};

#[test]
fn prefix_from_partial_identifier() {
    let content = "def Nat.ad";
    // line=1, column=11 -> text_before = "def Nat.ad"
    assert_eq!(extract_prefix(content, 1, 11), "ad");
}

#[test]
fn prefix_after_dot() {
    let content = "def Nat.";
    // line=1, column=9 -> text_before = "def Nat."
    assert_eq!(extract_prefix(content, 1, 9), "");
}

#[test]
fn prefix_from_empty_content() {
    assert_eq!(extract_prefix("", 1, 1), "");
}

#[test]
fn prefix_line_out_of_range() {
    assert_eq!(extract_prefix("hello", 5, 1), "");
}

#[test]
fn prefix_after_space() {
    let content = "theorem foo : Nat";
    // column=18 -> text_before = "theorem foo : Nat"
    assert_eq!(extract_prefix(content, 1, 18), "nat");
}

#[test]
fn sort_prefix_then_contains_then_other() {
    let items = vec![
        CompletionItem {
            label: "zz_other".into(),
            kind: None,
            detail: None,
        },
        CompletionItem {
            label: "fooBar".into(),
            kind: None,
            detail: None,
        },
        CompletionItem {
            label: "xyzfooabc".into(),
            kind: None,
            detail: None,
        },
        CompletionItem {
            label: "foo".into(),
            kind: None,
            detail: None,
        },
    ];
    let items = sort_completions(items, "foo");
    assert_eq!(items[0].label, "foo"); // prefix match
    assert_eq!(items[1].label, "fooBar"); // prefix match
    assert_eq!(items[2].label, "xyzfooabc"); // contains
    assert_eq!(items[3].label, "zz_other"); // other
}

#[test]
fn sort_empty_prefix_alphabetical() {
    let items = vec![
        CompletionItem {
            label: "banana".into(),
            kind: None,
            detail: None,
        },
        CompletionItem {
            label: "Apple".into(),
            kind: None,
            detail: None,
        },
        CompletionItem {
            label: "cherry".into(),
            kind: None,
            detail: None,
        },
    ];
    let items = sort_completions(items, "");
    assert_eq!(items[0].label, "Apple");
    assert_eq!(items[1].label, "banana");
    assert_eq!(items[2].label, "cherry");
}

#[test]
fn prefix_counts_characters() {
    assert_eq!(extract_prefix("αb", 1, 2), "α");
    assert_eq!(extract_prefix("αb", 1, 3), "αb");
    assert_eq!(extract_prefix("αb", 1, 9), "αb");
    assert_eq!(extract_prefix("αb", 1, 0), "αb");
    assert_eq!(extract_prefix("αb", 1, 1), "");
}
