#![allow(dead_code)]

use lean_mcp_server::error::LeanToolError;
use lean_mcp_server::json::{parse_json, Json};
use lean_mcp_server::models::GoalDiffResult;
use lean_mcp_server::protocol::{Call, Reply, Request, Turn};
use lean_mcp_server::tools::verify::handle_verify;

/// A JSON value, from its text.
fn j(text: &str) -> Json {
    parse_json(text).unwrap()
}

/// A stand-in for all that a tool may ask for.
struct Mock {
    content: String,
    goals: Vec<((u32, u32), Vec<String>)>,
    term_goals: Vec<((u32, u32), Json)>,
    hover: Option<Json>,
    diagnostics: Json,
    interactive: Vec<Json>,
    symbols: Vec<Json>,
    completions: Vec<Json>,
    declarations: Vec<((u32, u32), Vec<Json>)>,
    references: Vec<Json>,
    actions: Vec<Json>,
    resolved: Json,
    widgets: Vec<Json>,
    widget_source: Json,
    files: Vec<(String, String)>,
    failing: Vec<(&'static str, &'static str)>,
    asked: Vec<Request>,
}

fn copies(values: &[Json]) -> Vec<Json> {
    values.iter().map(|v| v.duplicate()).collect()
}

impl Mock {
    fn new(content: &str) -> Mock {
        Mock {
            content: content.to_string(),
            goals: vec![],
            term_goals: vec![],
            hover: None,
            diagnostics: j(r#"{"diagnostics": [], "success": true}"#),
            interactive: vec![],
            symbols: vec![],
            completions: vec![],
            declarations: vec![],
            references: vec![],
            actions: vec![],
            resolved: j("{}"),
            widgets: vec![],
            widget_source: j("{}"),
            files: vec![],
            failing: vec![],
            asked: vec![],
        }
    }

    /// The goals at a position (from 0).
    fn with_goal(mut self, line: u32, column: u32, goals: Option<Json>) -> Mock {
        let list = match &goals {
            Some(v) => match v.items_member("goals") {
                Some(items) => items.iter().map(|g| g.as_str().unwrap().to_string()).collect(),
                None => vec![],
            },
            None => vec![],
        };
        self.goals.push(((line, column), list));
        self
    }

    /// The name of a request.
    fn name(q: &Request) -> String {
        let shown = format!("{q:?}");
        shown.split([' ', '{']).next().unwrap().to_string()
    }

    /// The names of all requests so far.
    fn names(&self) -> Vec<String> {
        self.asked.iter().map(Mock::name).collect()
    }

    fn reply(&self, q: &Request) -> Reply {
        for (name, message) in &self.failing {
            if Mock::name(q) == *name {
                return Reply::Failed(message.to_string());
            }
        }
        match q {
            Request::FileContent { .. } => Reply::Text(self.content.clone()),
            Request::Goal { line, column, .. } => {
                for ((l, c), goals) in &self.goals {
                    if l == line && c == column {
                        return Reply::Texts(goals.clone());
                    }
                }
                Reply::Texts(vec![])
            }
            Request::TermGoal { line, column, .. } => {
                for ((l, c), v) in &self.term_goals {
                    if l == line && c == column {
                        return Reply::MaybeValue(Some(v.duplicate()));
                    }
                }
                Reply::MaybeValue(None)
            }
            Request::Hover { .. } => Reply::MaybeValue(self.hover.as_ref().map(|v| v.duplicate())),
            Request::Diagnostics { .. } => Reply::Value(self.diagnostics.duplicate()),
            Request::InteractiveDiagnostics { .. } => Reply::Values(copies(&self.interactive)),
            Request::Symbols { .. } => Reply::Values(copies(&self.symbols)),
            Request::Completions { .. } => Reply::Values(copies(&self.completions)),
            Request::Declarations { line, column, .. } => {
                for ((l, c), found) in &self.declarations {
                    if l == line && c == column {
                        return Reply::Values(copies(found));
                    }
                }
                Reply::Values(vec![])
            }
            Request::References { .. } => Reply::Values(copies(&self.references)),
            Request::CodeActions { .. } => Reply::Values(copies(&self.actions)),
            Request::ResolveAction { .. } => Reply::Value(self.resolved.duplicate()),
            Request::Widgets { .. } => Reply::Values(copies(&self.widgets)),
            Request::WidgetSource { .. } => Reply::Value(self.widget_source.duplicate()),
            Request::ReadFile { path } => match self.files.iter().find(|(p, _)| p == path) {
                Some((_, content)) => Reply::Text(content.clone()),
                None => Reply::Failed("No such file or directory (os error 2)".to_string()),
            },
            Request::FindSymbol { content, symbol } => {
                for (i, line) in content.lines().enumerate() {
                    if let Some(column) = line.find(symbol.as_str()) {
                        return Reply::Position(Some((i, column)));
                    }
                }
                Reply::Position(None)
            }
            Request::UriPaths { uris } => Reply::Names(
                uris.iter().map(|u| u.strip_prefix("file://").map(|p| p.to_string())).collect(),
            ),
            Request::KindNames { kinds } => Reply::Names(
                kinds
                    .iter()
                    .map(|k| match k {
                        Some(3) => Some("Function".to_string()),
                        Some(6) => Some("Variable".to_string()),
                        Some(21) => Some("Constant".to_string()),
                        _ => None,
                    })
                    .collect(),
            ),
            Request::SeverityNames { severities } => Reply::Texts(
                severities
                    .iter()
                    .map(|s| match s {
                        1 => "error".to_string(),
                        2 => "warning".to_string(),
                        3 => "info".to_string(),
                        4 => "hint".to_string(),
                        n => format!("unknown({n})"),
                    })
                    .collect(),
            ),
            Request::DiffGoals { before, after } => Reply::Diff(GoalDiffResult {
                goals_added: after.clone(),
                goals_removed: before.clone(),
                hypotheses_added: vec![],
                hypotheses_removed: vec![],
                changed: before != after,
            }),
            Request::ErrorText { error } => Reply::Text(format!("{error:?}")),
            _ => Reply::Done,
        }
    }

    /// Plays a tool to its end.
    fn run<C: Call>(&mut self, turn: Turn<C, C::Out>) -> C::Out {
        let mut turn = turn;
        loop {
            match turn {
                Turn::Ask(q, call) => {
                    let reply = self.reply(&q);
                    self.asked.push(q);
                    assert!(call.accepts(&reply));
                    turn = call.resume(reply);
                }
                Turn::Done(outcome) => return outcome,
            }
        }
    }
}

impl Mock {
    fn with_diagnostics(mut self, diagnostics: Vec<Json>) -> Mock {
        self.diagnostics = Json::Object(vec![
            ("diagnostics".to_string(), Json::Array(diagnostics)),
            ("success".to_string(), Json::Bool(true)),
        ]);
        self
    }
}

#[test]
fn handle_verify_returns_axioms() {
    // File has 1 line, so appended_start = 1. Axiom diagnostic at line 1
    // (the #print axioms line) is in the axiom region.
    let mut client = Mock::new("theorem foo : True := trivial\n")
    .with_diagnostics(vec![j(
        r##"{
            "range": {"start": {"line": 1, "character": 0}, "end": {"line": 1, "character": 10}},
            "severity": 3,
            "message": "'foo' depends on axioms: [propext, Classical.choice, Quot.sound]"
        }"##,
    )]);

    let result = client.run(handle_verify("Foo.lean", "foo", false)).unwrap();

    assert_eq!(
        result.axioms,
        vec!["propext", "Classical.choice", "Quot.sound"]
    );
    assert!(result.warnings.is_empty());
}

#[test]
fn handle_verify_with_axiom_region_errors_returns_axiom_check_failed() {
    // Error at line 1 (the #print axioms line) — axiom region error.
    let mut client = Mock::new("-- content\n")
        .with_diagnostics(vec![j(
            r##"{
                "range": {"start": {"line": 1, "character": 0}, "end": {"line": 1, "character": 10}},
                "severity": 1,
                "message": "unknown identifier 'nonexistent'"
            }"##,
        )]);

    let err = client.run(handle_verify("Bad.lean", "nonexistent", false)).unwrap_err();

    match err {
        LeanToolError::AxiomCheckFailed(msg) => {
            assert!(msg.contains("unknown identifier"));
        }
        other => panic!("expected AxiomCheckFailed, got: {other:?}"),
    }
}

#[test]
fn handle_verify_detects_file_compilation_errors() {
    // If the file itself has compilation errors, verify should fail
    // even if #print axioms would succeed.
    let mut client = Mock::new("theorem bad : False := sorry\n")
    .with_diagnostics(vec![
        // File error at line 0 (in the original file region).
        j(
            r##"{
                "range": {"start": {"line": 0, "character": 23}, "end": {"line": 0, "character": 28}},
                "severity": 1,
                "message": "declaration uses 'sorry'"
            }"##,
        ),
        // Axiom info at line 1 (the #print axioms line).
        j(
            r##"{
                "range": {"start": {"line": 1, "character": 0}, "end": {"line": 1, "character": 10}},
                "severity": 3,
                "message": "'bad' depends on axioms: [sorryAx]"
            }"##,
        ),
    ]);

    let err = client.run(handle_verify("Bad.lean", "bad", false)).unwrap_err();

    match err {
        LeanToolError::AxiomCheckFailed(msg) => {
            assert!(
                msg.contains("File has compilation errors"),
                "expected file compilation error, got: {msg}"
            );
            assert!(msg.contains("sorry"));
        }
        other => panic!("expected AxiomCheckFailed, got: {other:?}"),
    }
}

#[test]
fn handle_verify_with_source_scan() {
    // File has 2 lines, so appended_start = 2. Axiom diagnostic at line 2.
    let mut client = Mock::new("unsafe def x := 42\ntheorem bar : True := trivial\n")
    .with_diagnostics(vec![j(
        r##"{
            "range": {"start": {"line": 2, "character": 0}, "end": {"line": 2, "character": 10}},
            "severity": 3,
            "message": "'bar' depends on axioms: [propext]"
        }"##,
    )]);

    client.files.push((
        "Suspicious.lean".to_string(),
        "unsafe def x := 42\ntheorem bar : True := trivial\n".to_string(),
    ));
    let result = client.run(handle_verify("Suspicious.lean", "bar", true)).unwrap();

    assert_eq!(result.axioms, vec!["propext"]);
    assert_eq!(result.warnings.len(), 1);
    assert_eq!(result.warnings[0].line, 1);
    assert_eq!(result.warnings[0].pattern, "unsafe");
}

#[test]
fn handle_verify_no_axioms() {
    // File has 1 line, so appended_start = 1. Axiom diagnostic at line 1.
    let mut client = Mock::new("theorem trivialThm : True := trivial\n")
    .with_diagnostics(vec![j(
        r##"{
            "range": {"start": {"line": 1, "character": 0}, "end": {"line": 1, "character": 10}},
            "severity": 3,
            "message": "'trivialThm' does not depend on any axioms"
        }"##,
    )]);

    let result = client.run(handle_verify("Trivial.lean", "trivialThm", false)).unwrap();

    assert!(result.axioms.is_empty());
    assert!(result.warnings.is_empty());
}

#[test]
fn handle_verify_puts_the_file_back() {
    let content = "theorem foo : True := trivial\n";
    let mut client = Mock::new(content);
    client.run(handle_verify("Foo.lean", "foo", false)).unwrap();
    let edits: Vec<&Request> = client
        .asked
        .iter()
        .filter(|q| matches!(q, Request::ReplaceContent { .. }))
        .collect();
    assert_eq!(edits.len(), 2);
    assert_eq!(
        *edits[0],
        Request::ReplaceContent {
            path: "Foo.lean".to_string(),
            content: "theorem foo : True := trivial\n\n#print axioms _root_.foo\n".to_string(),
        }
    );
    assert_eq!(
        *edits[1],
        Request::ReplaceContent { path: "Foo.lean".to_string(), content: content.to_string() }
    );
}

#[test]
fn handle_verify_puts_the_file_back_after_a_failure() {
    let content = "theorem foo : True := trivial\n";
    for (failing, operation) in
        [("Diagnostics", "get_diagnostics"), ("ReplaceContent", "update_file_content")]
    {
        let mut client = Mock::new(content);
        client.failing.push((failing, "server gone"));
        let err = client.run(handle_verify("Foo.lean", "foo", true)).unwrap_err();
        match err {
            LeanToolError::LspError { operation: o, message } => {
                assert_eq!(o, operation);
                assert_eq!(message, "server gone");
            }
            other => panic!("expected LspError, got: {other:?}"),
        }
        assert_eq!(
            client.asked.last(),
            Some(&Request::ReplaceContent {
                path: "Foo.lean".to_string(),
                content: content.to_string(),
            })
        );
    }
}

#[test]
fn scan_warnings_returns_empty_on_missing_file() {
    let mut client = Mock::new("theorem foo : True := trivial\n");
    let result = client.run(handle_verify("Missing.lean", "foo", true)).unwrap();
    assert!(result.warnings.is_empty());
}
