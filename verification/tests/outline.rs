use lean_mcp_server::json::{parse_json, Json};
use lean_mcp_server::tools::outline::{
    detect_tag, extract_imports, symbol_to_entry, SYMBOL_KIND_CLASS, SYMBOL_KIND_ENUM,
    SYMBOL_KIND_FUNCTION, SYMBOL_KIND_METHOD, SYMBOL_KIND_MODULE, SYMBOL_KIND_NAMESPACE,
    SYMBOL_KIND_STRUCT,
};

/// A JSON value, from its text.
fn j(text: &str) -> Json {
    parse_json(text).unwrap()
}

#[test]
fn extract_imports_basic() {
    let content = "import Mathlib.Tactic\nimport Init.Data.Nat\n\ndef foo := 42\n";
    let imports = extract_imports(content);
    assert_eq!(
        imports,
        vec!["import Mathlib.Tactic", "import Init.Data.Nat"]
    );
}

#[test]
fn extract_imports_with_public() {
    let content = "public import Mathlib.Tactic\nimport Init\n\ndef foo := 42\n";
    let imports = extract_imports(content);
    assert_eq!(imports, vec!["public import Mathlib.Tactic", "import Init"]);
}

#[test]
fn extract_imports_with_comments_and_blanks() {
    let content =
        "-- header comment\n\nimport Mathlib.Tactic\n\ntheorem foo : True := trivial\n";
    let imports = extract_imports(content);
    assert_eq!(imports, vec!["import Mathlib.Tactic"]);
}

#[test]
fn extract_imports_empty_content() {
    let imports = extract_imports("");
    assert!(imports.is_empty());
}

#[test]
fn extract_imports_no_imports() {
    let content = "def foo := 42\ntheorem bar : True := trivial\n";
    let imports = extract_imports(content);
    assert!(imports.is_empty());
}

#[test]
fn tag_namespace_from_module_kind() {
    assert_eq!(detect_tag(SYMBOL_KIND_MODULE, "MyNamespace", None), "Ns");
}

#[test]
fn tag_namespace_from_namespace_kind() {
    assert_eq!(detect_tag(SYMBOL_KIND_NAMESPACE, "MyNamespace", None), "Ns");
}

#[test]
fn tag_class() {
    assert_eq!(detect_tag(SYMBOL_KIND_CLASS, "Monad", None), "Class");
}

#[test]
fn tag_struct_from_struct_kind() {
    assert_eq!(detect_tag(SYMBOL_KIND_STRUCT, "Point", None), "Struct");
}

#[test]
fn tag_struct_from_enum_kind() {
    assert_eq!(detect_tag(SYMBOL_KIND_ENUM, "Color", None), "Struct");
}

#[test]
fn tag_theorem_from_detail_keyword() {
    assert_eq!(
        detect_tag(SYMBOL_KIND_FUNCTION, "add_comm", Some("theorem add_comm")),
        "Thm"
    );
}

#[test]
fn tag_theorem_from_detail_with_forall() {
    assert_eq!(
        detect_tag(
            SYMBOL_KIND_FUNCTION,
            "foo",
            Some("\u{2200} (n : Nat), n = n")
        ),
        "Thm"
    );
}

#[test]
fn tag_theorem_from_detail_with_equality() {
    assert_eq!(
        detect_tag(SYMBOL_KIND_FUNCTION, "foo", Some("n + 0 = n")),
        "Thm"
    );
}

#[test]
fn tag_def_for_function() {
    assert_eq!(detect_tag(SYMBOL_KIND_FUNCTION, "myFunc", None), "Def");
}

#[test]
fn tag_def_for_method() {
    assert_eq!(detect_tag(SYMBOL_KIND_METHOD, "myMethod", None), "Def");
}

#[test]
fn tag_example() {
    assert_eq!(detect_tag(SYMBOL_KIND_FUNCTION, "example", None), "Ex");
}

#[test]
fn tag_example_prefixed() {
    assert_eq!(detect_tag(SYMBOL_KIND_FUNCTION, "example_foo", None), "Ex");
}

#[test]
fn symbol_to_entry_basic() {
    let sym = j(
        r##"{
            "name": "myDef",
            "kind": 12,
            "range": {
                "start": {"line": 5, "character": 0},
                "end": {"line": 10, "character": 0}
            }
        }"##,
    );
    let entry = symbol_to_entry(&sym).unwrap();
    assert_eq!(entry.name, "myDef");
    assert_eq!(entry.kind, "Def");
    assert_eq!(entry.start_line, 6); // 0-indexed + 1
    assert_eq!(entry.end_line, 11);
    assert!(entry.type_signature.is_none());
    assert!(entry.children.is_empty());
}

#[test]
fn symbol_to_entry_with_detail() {
    let sym = j(
        r##"{
            "name": "add_comm",
            "kind": 12,
            "detail": "theorem add_comm : a + b = b + a",
            "range": {
                "start": {"line": 0, "character": 0},
                "end": {"line": 3, "character": 0}
            }
        }"##,
    );
    let entry = symbol_to_entry(&sym).unwrap();
    assert_eq!(entry.name, "add_comm");
    assert_eq!(entry.kind, "Thm");
    assert_eq!(
        entry.type_signature,
        Some("theorem add_comm : a + b = b + a".to_string())
    );
}

#[test]
fn symbol_to_entry_with_children() {
    let sym = j(
        r##"{
            "name": "MyNs",
            "kind": 2,
            "range": {
                "start": {"line": 0, "character": 0},
                "end": {"line": 20, "character": 0}
            },
            "children": [
                {
                    "name": "innerDef",
                    "kind": 12,
                    "range": {
                        "start": {"line": 2, "character": 2},
                        "end": {"line": 5, "character": 0}
                    }
                }
            ]
        }"##,
    );
    let entry = symbol_to_entry(&sym).unwrap();
    assert_eq!(entry.name, "MyNs");
    assert_eq!(entry.kind, "Ns");
    assert_eq!(entry.children.len(), 1);
    assert_eq!(entry.children[0].name, "innerDef");
    assert_eq!(entry.children[0].kind, "Def");
}

#[test]
fn symbol_to_entry_missing_name_returns_none() {
    let sym = j(
        r##"{
            "kind": 12,
            "range": {
                "start": {"line": 0, "character": 0},
                "end": {"line": 1, "character": 0}
            }
        }"##,
    );
    assert!(symbol_to_entry(&sym).is_none());
}

#[test]
fn symbol_to_entry_missing_range_returns_none() {
    let sym = j(r##"{ "name": "foo", "kind": 12 }"##);
    assert!(symbol_to_entry(&sym).is_none());
}

#[test]
fn extract_imports_behind_block_comments() {
    assert_eq!(extract_imports("/- Copyright -/\nimport Mathlib\n"), vec!["import Mathlib"]);
    assert_eq!(
        extract_imports("/-\nCopyright\n\nimport Nothing\n-/\nimport A /- one\ntwo -/\nimport B\n"),
        vec!["import A /- one", "import B"]
    );
}

#[test]
fn extract_imports_takes_no_line_comment_for_a_block() {
    assert_eq!(
        extract_imports("import A -- /- x\nimport B"),
        vec!["import A -- /- x", "import B"]
    );
    assert_eq!(extract_imports("-- /- x\nimport B"), vec!["import B"]);
    assert_eq!(extract_imports("import --\nimport B"), vec!["import --", "import B"]);
    assert_eq!(
        extract_imports("import A /- -- -/ /- x\nimport B\n-/ import C\ndef x := 1\nimport D"),
        vec!["import A /- -- -/ /- x", "-/ import C"]
    );
}

#[test]
fn extract_imports_stops_at_code_behind_a_comment() {
    assert!(extract_imports("/- c -/ def x\nimport B").is_empty());
    assert!(extract_imports("/- c\n-/ def x\nimport B").is_empty());
    assert_eq!(extract_imports("/- c -/ -- d\nimport B"), vec!["import B"]);
    assert_eq!(extract_imports("/- c -/ /- d -/\nimport B"), vec!["import B"]);
    assert!(extract_imports("-/\nimport B").is_empty());
}

#[test]
fn extract_imports_knows_nested_comments() {
    assert!(extract_imports("/- a /- b -/\nimport X\n-/").is_empty());
    assert_eq!(
        extract_imports("/- a /- b -/\nimport X\n-/\npublic import Y"),
        vec!["public import Y"]
    );
}

#[test]
fn extract_imports_lists_what_stands_before_code() {
    assert_eq!(
        extract_imports("import A\n\n-- note\n  public import B  \nopen A\nimport C"),
        vec!["import A", "public import B"]
    );
    assert!(extract_imports("import \nimport B").is_empty());
}
