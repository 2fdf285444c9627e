#![allow(dead_code)]

use lean_mcp_server::error::LeanToolError;
use lean_mcp_server::json::{parse_json, Json};
use lean_mcp_server::models::GoalDiffResult;
use lean_mcp_server::protocol::{Call, Reply, Request, Turn};
use lean_mcp_server::tools::declarations::handle_declaration_file;

/// A JSON value, from its text.
fn j(text: &str) -> Json {
    parse_json(text).unwrap()
}

/// A stand-in for all that a tool may ask for.
struct Mock {
    content: String,
    goals: Vec<((u32, u32), Vec<String>)>,
    term_goals: Vec<((u32, u32), Json)>,
    hover: Option<Json>,
    diagnostics: Json,
    interactive: Vec<Json>,
    symbols: Vec<Json>,
    completions: Vec<Json>,
    declarations: Vec<((u32, u32), Vec<Json>)>,
    references: Vec<Json>,
    actions: Vec<Json>,
    resolved: Json,
    widgets: Vec<Json>,
    widget_source: Json,
    files: Vec<(String, String)>,
    failing: Vec<(&'static str, &'static str)>,
    asked: Vec<Request>,
}

fn copies(values: &[Json]) -> Vec<Json> {
    values.iter().map(|v| v.duplicate()).collect()
}

impl Mock {
    fn new(content: &str) -> Mock {
        Mock {
            content: content.to_string(),
            goals: vec![],
            term_goals: vec![],
            hover: None,
            diagnostics: j(r#"{"diagnostics": [], "success": true}"#),
            interactive: vec![],
            symbols: vec![],
            completions: vec![],
            declarations: vec![],
            references: vec![],
            actions: vec![],
            resolved: j("{}"),
            widgets: vec![],
            widget_source: j("{}"),
            files: vec![],
            failing: vec![],
            asked: vec![],
        }
    }

    /// The goals at a position (from 0).
    fn with_goal(mut self, line: u32, column: u32, goals: Option<Json>) -> Mock {
        let list = match &goals {
            Some(v) => match v.items_member("goals") {
                Some(items) => items.iter().map(|g| g.as_str().unwrap().to_string()).collect(),
                None => vec![],
            },
            None => vec![],
        };
        self.goals.push(((line, column), list));
        self
    }

    /// The name of a request.
    fn name(q: &Request) -> String {
        let shown = format!("{q:?}");
        shown.split([' ', '{']).next().unwrap().to_string()
    }

    /// The names of all requests so far.
    fn names(&self) -> Vec<String> {
        self.asked.iter().map(Mock::name).collect()
    }

    fn reply(&self, q: &Request) -> Reply {
        for (name, message) in &self.failing {
            if Mock::name(q) == *name {
                return Reply::Failed(message.to_string());
            }
        }
        match q {
            Request::FileContent { .. } => Reply::Text(self.content.clone()),
            Request::Goal { line, column, .. } => {
                for ((l, c), goals) in &self.goals {
                    if l == line && c == column {
                        return Reply::Texts(goals.clone());
                    }
                }
                Reply::Texts(vec![])
            }
            Request::TermGoal { line, column, .. } => {
                for ((l, c), v) in &self.term_goals {
                    if l == line && c == column {
                        return Reply::MaybeValue(Some(v.duplicate()));
                    }
                }
                Reply::MaybeValue(None)
            }
            Request::Hover { .. } => Reply::MaybeValue(self.hover.as_ref().map(|v| v.duplicate())),
            Request::Diagnostics { .. } => Reply::Value(self.diagnostics.duplicate()),
            Request::InteractiveDiagnostics { .. } => Reply::Values(copies(&self.interactive)),
            Request::Symbols { .. } => Reply::Values(copies(&self.symbols)),
            Request::Completions { .. } => Reply::Values(copies(&self.completions)),
            Request::Declarations { line, column, .. } => {
                for ((l, c), found) in &self.declarations {
                    if l == line && c == column {
                        return Reply::Values(copies(found));
                    }
                }
                Reply::Values(vec![])
            }
            Request::References { .. } => Reply::Values(copies(&self.references)),
            Request::CodeActions { .. } => Reply::Values(copies(&self.actions)),
            Request::ResolveAction { .. } => Reply::Value(self.resolved.duplicate()),
            Request::Widgets { .. } => Reply::Values(copies(&self.widgets)),
            Request::WidgetSource { .. } => Reply::Value(self.widget_source.duplicate()),
            Request::SourceText { path } => match self.files.iter().find(|(p, _)| p == path) {
                Some((_, content)) => Reply::Text(content.clone()),
                None => Reply::Failed("No such file or directory (os error 2)".to_string()),
            },
            Request::FindSymbol { content, symbol } => {
                for (i, line) in content.lines().enumerate() {
                    if let Some(column) = line.find(symbol.as_str()) {
                        return Reply::Position(Some((i, column)));
                    }
                }
                Reply::Position(None)
            }
            Request::UriPaths { uris } => Reply::Names(
                uris.iter().map(|u| u.strip_prefix("file://").map(|p| p.to_string())).collect(),
            ),
            Request::KindNames { kinds } => Reply::Names(
                kinds
                    .iter()
                    .map(|k| match k {
                        Some(3) => Some("Function".to_string()),
                        Some(6) => Some("Variable".to_string()),
                        Some(21) => Some("Constant".to_string()),
                        _ => None,
                    })
                    .collect(),
            ),
            Request::SeverityNames { severities } => Reply::Texts(
                severities
                    .iter()
                    .map(|s| match s {
                        1 => "error".to_string(),
                        2 => "warning".to_string(),
                        3 => "info".to_string(),
                        4 => "hint".to_string(),
                        n => format!("unknown({n})"),
                    })
                    .collect(),
            ),
            Request::DiffGoals { before, after } => Reply::Diff(GoalDiffResult {
                goals_added: after.clone(),
                goals_removed: before.clone(),
                hypotheses_added: vec![],
                hypotheses_removed: vec![],
                changed: before != after,
            }),
            Request::ErrorText { error } => Reply::Text(format!("{error:?}")),
            _ => Reply::Done,
        }
    }

    /// Plays a tool to its end.
    fn run<C: Call>(&mut self, turn: Turn<C, C::Out>) -> C::Out {
        let mut turn = turn;
        loop {
            match turn {
                Turn::Ask(q, call) => {
                    let reply = self.reply(&q);
                    self.asked.push(q);
                    assert!(call.accepts(&reply));
                    turn = call.resume(reply);
                }
                Turn::Done(outcome) => return outcome,
            }
        }
    }
}

impl Mock {
    fn with_declarations(mut self, line: u32, column: u32, found: Vec<Json>) -> Mock {
        self.declarations.push(((line, column), found));
        self
    }
}

#[test]
fn declaration_file_returns_content() {
    let decl_file = "/library/Decl.lean".to_string();
    let decl_content = "-- declaration source\ndef bar := 42\n".to_string();

    // Content has "Nat.add" starting at line 1, col 9 (0-indexed).
    let mut client = Mock::new("import Mathlib\ndef x := Nat.add 1 2").with_declarations(
        1,
        9,
        vec![j(
            r##"{
                "targetUri": "file:///library/Decl.lean",
                "targetRange": {
                    "start": {"line": 0, "character": 0},
                    "end": {"line": 1, "character": 0}
                }
            }"##,
        )],
    );

    client.files.push((decl_file.clone(), decl_content));
    let result = client.run(handle_declaration_file("Main.lean", "Nat.add")).unwrap();

    assert_eq!(result.file_path, decl_file);
    assert!(result.content.contains("def bar := 42"));
}

#[test]
fn declaration_file_uses_uri_fallback() {
    let decl_file = "/library/Other.lean".to_string();
    let decl_content = "-- other file\n".to_string();

    let mut client = Mock::new("def foo := bar").with_declarations(
        0,
        11,
        vec![j(r##"{"uri": "file:///library/Other.lean"}"##)],
    );

    client.files.push((decl_file.clone(), decl_content));
    let result = client.run(handle_declaration_file("Main.lean", "bar")).unwrap();

    assert_eq!(result.file_path, decl_file);
    assert!(result.content.contains("-- other file"));
}

#[test]
fn declaration_file_symbol_not_found() {
    let mut client = Mock::new("def foo := 42");

    let err = client.run(handle_declaration_file("Main.lean", "nonexistent")).unwrap_err();

    match err {
        LeanToolError::SymbolNotFound(name) => {
            assert_eq!(name, "nonexistent");
        }
        other => panic!("expected SymbolNotFound, got: {other:?}"),
    }
}

#[test]
fn declaration_file_no_declaration() {
    // Symbol "foo" is at (0, 4) -- but declarations returns empty.
    let mut client = Mock::new("def foo := 42");

    let err = client.run(handle_declaration_file("Main.lean", "foo")).unwrap_err();

    match err {
        LeanToolError::NoDeclaration(name) => {
            assert_eq!(name, "foo");
        }
        other => panic!("expected NoDeclaration, got: {other:?}"),
    }
}

#[test]
fn declaration_file_missing_uri_returns_error() {
    let mut client = Mock::new("def foo := 42").with_declarations(
        0,
        4,
        vec![j(r##"{"targetRange": {"start": {"line": 0}, "end": {"line": 1}}}"##)],
    );

    let err = client.run(handle_declaration_file("Main.lean", "foo")).unwrap_err();

    match err {
        LeanToolError::NoDeclaration(name) => {
            assert_eq!(name, "foo");
        }
        other => panic!("expected NoDeclaration, got: {other:?}"),
    }
}
