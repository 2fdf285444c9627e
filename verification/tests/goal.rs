use lean_mcp_server::tools::goal::strip_markdown_fences;

#[test]
fn strip_fences_with_lean_block() {
    assert_eq!(strip_markdown_fences("```lean\nfoo\n```"), "foo");
}

#[test]
fn strip_fences_no_fences() {
    assert_eq!(strip_markdown_fences("plain text"), "plain text");
}

#[test]
fn strip_fences_partial_prefix_only() {
    assert_eq!(strip_markdown_fences("```lean\nfoo"), "foo");
}
