use lean_mcp_server::json::{parse_json, Json};
use lean_mcp_server::tools::verify::{
    check_axiom_errors, parse_axioms, scan_warnings, warning_patterns,
};

/// A JSON value, from its text.
fn j(text: &str) -> Json {
    parse_json(text).unwrap()
}

#[test]
fn parse_axioms_extracts_from_info_diag() {
    let diags = vec![j(
        r##"{
            "severity": 3,
            "message": "'myThm' depends on axioms: [propext, Classical.choice, Quot.sound]"
        }"##,
    )];
    let axioms = parse_axioms(&diags);
    assert_eq!(axioms, vec!["propext", "Classical.choice", "Quot.sound"]);
}

#[test]
fn parse_axioms_ignores_non_info() {
    let diags = vec![
        j(r##"{ "severity": 1, "message": "depends on axioms: [propext]" }"##),
        j(r##"{ "severity": 2, "message": "depends on axioms: [Quot.sound]" }"##),
    ];
    let axioms = parse_axioms(&diags);
    assert!(axioms.is_empty());
}

#[test]
fn parse_axioms_handles_multiline_message() {
    let diags = vec![j(
        r##"{
            "severity": 3,
            "message": "'thm' depends on axioms:\n[propext,\nClassical.choice]"
        }"##,
    )];
    let axioms = parse_axioms(&diags);
    assert_eq!(axioms, vec!["propext", "Classical.choice"]);
}

#[test]
fn parse_axioms_empty_on_no_match() {
    let diags = vec![j(r##"{ "severity": 3, "message": "'thm' does not depend on any axioms" }"##)];
    let axioms = parse_axioms(&diags);
    assert!(axioms.is_empty());
}

#[test]
fn parse_axioms_empty_on_empty_input() {
    let axioms = parse_axioms(&[]);
    assert!(axioms.is_empty());
}

#[test]
fn check_axiom_errors_returns_joined_errors() {
    let diags = vec![
        j(r##"{"severity": 1, "message": "unknown identifier 'foo'"}"##),
        j(r##"{"severity": 1, "message": "type mismatch"}"##),
    ];
    let result = check_axiom_errors(&diags);
    assert_eq!(
        result,
        Some("unknown identifier 'foo'; type mismatch".to_string())
    );
}

#[test]
fn check_axiom_errors_returns_none_on_no_errors() {
    let diags = vec![
        j(r##"{"severity": 2, "message": "warning"}"##),
        j(r##"{"severity": 3, "message": "info"}"##),
    ];
    let result = check_axiom_errors(&diags);
    assert!(result.is_none());
}

#[test]
fn check_axiom_errors_empty_input() {
    assert!(check_axiom_errors(&[]).is_none());
}

#[test]
fn scan_warnings_detects_patterns() {
    let content = "import Mathlib\nset_option debug.foo true\nunsafe def x := 42\n\
         @[implemented_by bar] def baz := 1\ndef normal := 0\n";

    let warnings = scan_warnings(content);
    assert_eq!(warnings.len(), 3);

    assert_eq!(warnings[0].line, 2);
    assert_eq!(warnings[0].pattern, "set_option debug.");

    assert_eq!(warnings[1].line, 3);
    assert_eq!(warnings[1].pattern, "unsafe");

    assert_eq!(warnings[2].line, 4);
    assert!(warnings[2].pattern.contains("implemented_by"));
}

#[test]
fn scan_warnings_detects_all_13_patterns() {
    let content = "set_option debug.x true\n\
         unsafe def a := 1\n\
         @[implemented_by b] def c := 1\n\
         @[extern \"x\"] def d := 1\n\
         opaque e : Nat\n\
         local instance f : Decidable True := .isTrue trivial\n\
         local notation \"x\" => 1\n\
         local macro_rules | _ => `(1)\n\
         scoped notation \"y\" => 2\n\
         scoped instance g : Decidable True := .isTrue trivial\n\
         @[csimp] theorem h : True := trivial\n\
         import Lean.Elab\n\
         import Lean.Meta\n";

    let warnings = scan_warnings(content);
    assert_eq!(warnings.len(), 13);
    for (i, w) in warnings.iter().enumerate() {
        assert_eq!(w.line, (i + 1) as i64);
    }
}

#[test]
fn scan_warnings_empty_on_clean_file() {
    let content = "theorem foo : True := trivial\n";

    let warnings = scan_warnings(content);
    assert!(warnings.is_empty());
}

#[test]
fn warning_patterns_has_13_entries() {
    assert_eq!(warning_patterns().len(), 13);
}

#[test]
fn warning_patterns_all_compile() {
    for pattern in warning_patterns() {
        assert!(
            regex::Regex::new(pattern).is_ok(),
            "Pattern failed to compile: {pattern}"
        );
    }
}
