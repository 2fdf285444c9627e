#![allow(dead_code)]

use lean_mcp_server::error::LeanToolError;
use lean_mcp_server::json::{parse_json, Json};
use lean_mcp_server::models::GoalDiffResult;
use lean_mcp_server::protocol::{Call, Reply, Request, Turn};
use lean_mcp_server::tools::hover::handle_lean_hover;

/// A JSON value, from its text.
fn j(text: &str) -> Json {
    parse_json(text).unwrap()
}

/// A stand-in for all that a tool may ask for.
struct Mock {
    content: String,
    goals: Vec<((u32, u32), Vec<String>)>,
    term_goals: Vec<((u32, u32), Json)>,
    hover: Option<Json>,
    diagnostics: Json,
    interactive: Vec<Json>,
    symbols: Vec<Json>,
    completions: Vec<Json>,
    declarations: Vec<((u32, u32), Vec<Json>)>,
    references: Vec<Json>,
    actions: Vec<Json>,
    resolved: Json,
    widgets: Vec<Json>,
    widget_source: Json,
    files: Vec<(String, String)>,
    failing: Vec<(&'static str, &'static str)>,
    asked: Vec<Request>,
}

fn copies(values: &[Json]) -> Vec<Json> {
    values.iter().map(|v| v.duplicate()).collect()
}

impl Mock {
    fn new(content: &str) -> Mock {
        Mock {
            content: content.to_string(),
            goals: vec![],
            term_goals: vec![],
            hover: None,
            diagnostics: j(r#"{"diagnostics": [], "success": true}"#),
            interactive: vec![],
            symbols: vec![],
            completions: vec![],
            declarations: vec![],
            references: vec![],
            actions: vec![],
            resolved: j("{}"),
            widgets: vec![],
            widget_source: j("{}"),
            files: vec![],
            failing: vec![],
            asked: vec![],
        }
    }

    /// The goals at a position (from 0).
    fn with_goal(mut self, line: u32, column: u32, goals: Option<Json>) -> Mock {
        let list = match &goals {
            Some(v) => match v.items_member("goals") {
                Some(items) => items.iter().map(|g| g.as_str().unwrap().to_string()).collect(),
                None => vec![],
            },
            None => vec![],
        };
        self.goals.push(((line, column), list));
        self
    }

    /// The name of a request.
    fn name(q: &Request) -> String {
        let shown = format!("{q:?}");
        shown.split([' ', '{']).next().unwrap().to_string()
    }

    /// The names of all requests so far.
    fn names(&self) -> Vec<String> {
        self.asked.iter().map(Mock::name).collect()
    }

    fn reply(&self, q: &Request) -> Reply {
        for (name, message) in &self.failing {
            if Mock::name(q) == *name {
                return Reply::Failed(message.to_string());
            }
        }
        match q {
            Request::FileContent { .. } => Reply::Text(self.content.clone()),
            Request::Goal { line, column, .. } => {
                for ((l, c), goals) in &self.goals {
                    if l == line && c == column {
                        return Reply::Texts(goals.clone());
                    }
                }
                Reply::Texts(vec![])
            }
            Request::TermGoal { line, column, .. } => {
                for ((l, c), v) in &self.term_goals {
                    if l == line && c == column {
                        return Reply::MaybeValue(Some(v.duplicate()));
                    }
                }
                Reply::MaybeValue(None)
            }
            Request::Hover { .. } => Reply::MaybeValue(self.hover.as_ref().map(|v| v.duplicate())),
            Request::Diagnostics { .. } => Reply::Value(self.diagnostics.duplicate()),
            Request::InteractiveDiagnostics { .. } => Reply::Values(copies(&self.interactive)),
            Request::Symbols { .. } => Reply::Values(copies(&self.symbols)),
            Request::Completions { .. } => Reply::Values(copies(&self.completions)),
            Request::Declarations { line, column, .. } => {
                for ((l, c), found) in &self.declarations {
                    if l == line && c == column {
                        return Reply::Values(copies(found));
                    }
                }
                Reply::Values(vec![])
            }
            Request::References { .. } => Reply::Values(copies(&self.references)),
            Request::CodeActions { .. } => Reply::Values(copies(&self.actions)),
            Request::ResolveAction { .. } => Reply::Value(self.resolved.duplicate()),
            Request::Widgets { .. } => Reply::Values(copies(&self.widgets)),
            Request::WidgetSource { .. } => Reply::Value(self.widget_source.duplicate()),
            Request::ReadFile { path } => match self.files.iter().find(|(p, _)| p == path) {
                Some((_, content)) => Reply::Text(content.clone()),
                None => Reply::Failed("No such file or directory (os error 2)".to_string()),
            },
            Request::FindSymbol { content, symbol } => {
                for (i, line) in content.lines().enumerate() {
                    if let Some(column) = line.find(symbol.as_str()) {
                        return Reply::Position(Some((i, column)));
                    }
                }
                Reply::Position(None)
            }
            Request::UriPaths { uris } => Reply::Names(
                uris.iter().map(|u| u.strip_prefix("file://").map(|p| p.to_string())).collect(),
            ),
            Request::KindNames { kinds } => Reply::Names(
                kinds
                    .iter()
                    .map(|k| match k {
                        Some(3) => Some("Function".to_string()),
                        Some(6) => Some("Variable".to_string()),
                        Some(21) => Some("Constant".to_string()),
                        _ => None,
                    })
                    .collect(),
            ),
            Request::SeverityNames { severities } => Reply::Texts(
                severities
                    .iter()
                    .map(|s| match s {
                        1 => "error".to_string(),
                        2 => "warning".to_string(),
                        3 => "info".to_string(),
                        4 => "hint".to_string(),
                        n => format!("unknown({n})"),
                    })
                    .collect(),
            ),
            Request::DiffGoals { before, after } => Reply::Diff(GoalDiffResult {
                goals_added: after.clone(),
                goals_removed: before.clone(),
                hypotheses_added: vec![],
                hypotheses_removed: vec![],
                changed: before != after,
            }),
            Request::ErrorText { error } => Reply::Text(format!("{error:?}")),
            _ => Reply::Done,
        }
    }

    /// Plays a tool to its end.
    fn run<C: Call>(&mut self, turn: Turn<C, C::Out>) -> C::Out {
        let mut turn = turn;
        loop {
            match turn {
                Turn::Ask(q, call) => {
                    let reply = self.reply(&q);
                    self.asked.push(q);
                    assert!(call.accepts(&reply));
                    turn = call.resume(reply);
                }
                Turn::Done(outcome) => return outcome,
            }
        }
    }
}

#[test]
fn hover_returns_symbol_and_info() {
    let mut client = Mock {
        content: "def Nat.add := sorry".to_string(),
        hover: Some(j(
            r##"{
                "contents": {
                    "kind": "markdown",
                    "value": "```lean\nNat -> Nat -> Nat\n```"
                },
                "range": {
                    "start": {"line": 0, "character": 4},
                    "end": {"line": 0, "character": 11}
                }
            }"##,
        )),
        ..Mock::new("")
    };

    let result = client.run(handle_lean_hover("Main.lean", 1, 5)).unwrap();
    assert_eq!(result.symbol, "Nat.add");
    assert_eq!(result.info, "Nat -> Nat -> Nat");
    assert!(result.diagnostics.is_empty());
}

#[test]
fn hover_strips_markdown_fences() {
    let mut client = Mock {
        content: "def foo := 42".to_string(),
        hover: Some(j(
            r##"{
                "contents": {
                    "value": "```lean\nNat\n```"
                },
                "range": {
                    "start": {"line": 0, "character": 4},
                    "end": {"line": 0, "character": 7}
                }
            }"##,
        )),
        ..Mock::new("")
    };

    let result = client.run(handle_lean_hover("Main.lean", 1, 5)).unwrap();
    assert_eq!(result.info, "Nat");
    assert!(!result.info.contains("```"));
}

#[test]
fn hover_includes_diagnostics_at_position() {
    let mut client = Mock {
        content: "def bad := sorry".to_string(),
        hover: Some(j(
            r##"{
                "contents": {"value": "sorry"},
                "range": {
                    "start": {"line": 0, "character": 11},
                    "end": {"line": 0, "character": 16}
                }
            }"##,
        )),
        diagnostics: j(
            r##"[{
                "range": {
                    "start": {"line": 0, "character": 11},
                    "end": {"line": 0, "character": 16}
                },
                "severity": 2,
                "message": "declaration uses sorry"
            }]"##,
        ),
        ..Mock::new("")
    };

    let result = client.run(handle_lean_hover("Main.lean", 1, 12)).unwrap();
    assert_eq!(result.diagnostics.len(), 1);
    assert_eq!(result.diagnostics[0].severity, "warning");
    assert_eq!(result.diagnostics[0].message, "declaration uses sorry");
}

#[test]
fn hover_with_no_info_returns_error() {
    let mut client = Mock {
        content: "-- comment".to_string(),
        hover: None,
        ..Mock::new("")
    };

    let result = client.run(handle_lean_hover("Main.lean", 1, 1));
    assert!(result.is_err());
    let err = result.unwrap_err();
    assert!(
        matches!(err, LeanToolError::NoHoverInfo { line: 1, column: 1 }),
        "expected NoHoverInfo, got: {err:?}"
    );
}

#[test]
fn converts_raw_diagnostics_to_models() {
    let mut client = Mock {
        content: "a\nb\nc\nd\n  some words here\n".to_string(),
        hover: Some(j(
            r##"{
                "range": {"start": {"line": 4, "character": 2}, "end": {"line": 4, "character": 6}},
                "contents": {"value": "some"}
            }"##,
        )),
        diagnostics: j(
            r##"[{
                "range": {
                    "start": {"line": 4, "character": 2},
                    "end": {"line": 4, "character": 10}
                },
                "severity": 1,
                "message": "unknown identifier"
            }]"##,
        ),
        ..Mock::new("")
    };
    let msgs = client.run(handle_lean_hover("Main.lean", 5, 3)).unwrap().diagnostics;
    assert_eq!(msgs.len(), 1);
    assert_eq!(msgs[0].severity, "error");
    assert_eq!(msgs[0].message, "unknown identifier");
    assert_eq!(msgs[0].line, 5); // 0-indexed -> 1-indexed
    assert_eq!(msgs[0].column, 3);
}

#[test]
fn converts_diagnostics_with_full_range() {
    let mut client = Mock {
        content: "words\n".to_string(),
        hover: Some(j(
            r##"{
                "range": {"start": {"line": 0, "character": 0}, "end": {"line": 0, "character": 5}},
                "contents": {"value": "words"}
            }"##,
        )),
        diagnostics: j(
            r##"[{
                "fullRange": {
                    "start": {"line": 0, "character": 0},
                    "end": {"line": 0, "character": 5}
                },
                "severity": 2,
                "message": "warning"
            }]"##,
        ),
        ..Mock::new("")
    };
    let msgs = client.run(handle_lean_hover("Main.lean", 1, 1)).unwrap().diagnostics;
    assert_eq!(msgs.len(), 1);
    assert_eq!(msgs[0].severity, "warning");
    assert_eq!(msgs[0].line, 1);
    assert_eq!(msgs[0].column, 1);
}
