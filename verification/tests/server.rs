use lean_mcp_server::server::{server_name, server_version};

#[test]
fn server_name_returns_lean_lsp() {
    assert_eq!(server_name(), "Lean LSP");
}

#[test]
fn server_version_is_not_empty() {
    let version = server_version();
    assert!(!version.is_empty());
}
