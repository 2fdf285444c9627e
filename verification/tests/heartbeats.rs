use lean_mcp_server::tools::prepend_max_heartbeats;

#[test]
fn prepend_max_heartbeats_adds_default() {
    let result = prepend_max_heartbeats("def foo := 42", None);
    assert!(result.starts_with("set_option maxHeartbeats 400000\n"));
    assert!(result.ends_with("def foo := 42"));
}

#[test]
fn prepend_max_heartbeats_skips_when_already_present() {
    let code = "set_option maxHeartbeats 200000\ndef foo := 42";
    let result = prepend_max_heartbeats(code, None);
    assert_eq!(result, code);
}

#[test]
fn prepend_max_heartbeats_disabled_with_zero() {
    let code = "def foo := 42";
    let result = prepend_max_heartbeats(code, Some("0"));
    assert_eq!(result, code);

}

#[test]
fn prepend_max_heartbeats_uses_custom_env_value() {
    let result = prepend_max_heartbeats("def foo := 42", Some("800000"));
    assert!(result.starts_with("set_option maxHeartbeats 800000\n"));

}
