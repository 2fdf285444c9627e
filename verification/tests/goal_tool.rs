#![allow(dead_code)]

use lean_mcp_server::error::LeanToolError;
use lean_mcp_server::json::{parse_json, Json};
use lean_mcp_server::models::GoalDiffResult;
use lean_mcp_server::protocol::{Call, Reply, Request, Turn};
use lean_mcp_server::tools::goal::{handle_lean_goal, handle_lean_term_goal};

/// A JSON value, from its text.
fn j(text: &str) -> Json {
    parse_json(text).unwrap()
}

/// A stand-in for all that a tool may ask for.
struct Mock {
    content: String,
    goals: Vec<((u32, u32), Vec<String>)>,
    term_goals: Vec<((u32, u32), Json)>,
    hover: Option<Json>,
    diagnostics: Json,
    interactive: Vec<Json>,
    symbols: Vec<Json>,
    completions: Vec<Json>,
    declarations: Vec<((u32, u32), Vec<Json>)>,
    references: Vec<Json>,
    actions: Vec<Json>,
    resolved: Json,
    widgets: Vec<Json>,
    widget_source: Json,
    files: Vec<(String, String)>,
    failing: Vec<(&'static str, &'static str)>,
    asked: Vec<Request>,
}

fn copies(values: &[Json]) -> Vec<Json> {
    values.iter().map(|v| v.duplicate()).collect()
}

impl Mock {
    fn new(content: &str) -> Mock {
        Mock {
            content: content.to_string(),
            goals: vec![],
            term_goals: vec![],
            hover: None,
            diagnostics: j(r#"{"diagnostics": [], "success": true}"#),
            interactive: vec![],
            symbols: vec![],
            completions: vec![],
            declarations: vec![],
            references: vec![],
            actions: vec![],
            resolved: j("{}"),
            widgets: vec![],
            widget_source: j("{}"),
            files: vec![],
            failing: vec![],
            asked: vec![],
        }
    }

    /// The goals at a position (from 0).
    fn with_goal(mut self, line: u32, column: u32, goals: Option<Json>) -> Mock {
        let list = match &goals {
            Some(v) => match v.items_member("goals") {
                Some(items) => items.iter().map(|g| g.as_str().unwrap().to_string()).collect(),
                None => vec![],
            },
            None => vec![],
        };
        self.goals.push(((line, column), list));
        self
    }

    /// The name of a request.
    fn name(q: &Request) -> String {
        let shown = format!("{q:?}");
        shown.split([' ', '{']).next().unwrap().to_string()
    }

    /// The names of all requests so far.
    fn names(&self) -> Vec<String> {
        self.asked.iter().map(Mock::name).collect()
    }

    fn reply(&self, q: &Request) -> Reply {
        for (name, message) in &self.failing {
            if Mock::name(q) == *name {
                return Reply::Failed(message.to_string());
            }
        }
        match q {
            Request::FileContent { .. } => Reply::Text(self.content.clone()),
            Request::Goal { line, column, .. } => {
                for ((l, c), goals) in &self.goals {
                    if l == line && c == column {
                        return Reply::Texts(goals.clone());
                    }
                }
                Reply::Texts(vec![])
            }
            Request::TermGoal { line, column, .. } => {
                for ((l, c), v) in &self.term_goals {
                    if l == line && c == column {
                        return Reply::MaybeValue(Some(v.duplicate()));
                    }
                }
                Reply::MaybeValue(None)
            }
            Request::Hover { .. } => Reply::MaybeValue(self.hover.as_ref().map(|v| v.duplicate())),
            Request::Diagnostics { .. } => Reply::Value(self.diagnostics.duplicate()),
            Request::InteractiveDiagnostics { .. } => Reply::Values(copies(&self.interactive)),
            Request::Symbols { .. } => Reply::Values(copies(&self.symbols)),
            Request::Completions { .. } => Reply::Values(copies(&self.completions)),
            Request::Declarations { line, column, .. } => {
                for ((l, c), found) in &self.declarations {
                    if l == line && c == column {
                        return Reply::Values(copies(found));
                    }
                }
                Reply::Values(vec![])
            }
            Request::References { .. } => Reply::Values(copies(&self.references)),
            Request::CodeActions { .. } => Reply::Values(copies(&self.actions)),
            Request::ResolveAction { .. } => Reply::Value(self.resolved.duplicate()),
            Request::Widgets { .. } => Reply::Values(copies(&self.widgets)),
            Request::WidgetSource { .. } => Reply::Value(self.widget_source.duplicate()),
            Request::ReadFile { path } => match self.files.iter().find(|(p, _)| p == path) {
                Some((_, content)) => Reply::Text(content.clone()),
                None => Reply::Failed("No such file or directory (os error 2)".to_string()),
            },
            Request::FindSymbol { content, symbol } => {
                for (i, line) in content.lines().enumerate() {
                    if let Some(column) = line.find(symbol.as_str()) {
                        return Reply::Position(Some((i, column)));
                    }
                }
                Reply::Position(None)
            }
            Request::UriPaths { uris } => Reply::Names(
                uris.iter().map(|u| u.strip_prefix("file://").map(|p| p.to_string())).collect(),
            ),
            Request::KindNames { kinds } => Reply::Names(
                kinds
                    .iter()
                    .map(|k| match k {
                        Some(3) => Some("Function".to_string()),
                        Some(6) => Some("Variable".to_string()),
                        Some(21) => Some("Constant".to_string()),
                        _ => None,
                    })
                    .collect(),
            ),
            Request::SeverityNames { severities } => Reply::Texts(
                severities
                    .iter()
                    .map(|s| match s {
                        1 => "error".to_string(),
                        2 => "warning".to_string(),
                        3 => "info".to_string(),
                        4 => "hint".to_string(),
                        n => format!("unknown({n})"),
                    })
                    .collect(),
            ),
            Request::DiffGoals { before, after } => Reply::Diff(GoalDiffResult {
                goals_added: after.clone(),
                goals_removed: before.clone(),
                hypotheses_added: vec![],
                hypotheses_removed: vec![],
                changed: before != after,
            }),
            Request::ErrorText { error } => Reply::Text(format!("{error:?}")),
            _ => Reply::Done,
        }
    }

    /// Plays a tool to its end.
    fn run<C: Call>(&mut self, turn: Turn<C, C::Out>) -> C::Out {
        let mut turn = turn;
        loop {
            match turn {
                Turn::Ask(q, call) => {
                    let reply = self.reply(&q);
                    self.asked.push(q);
                    assert!(call.accepts(&reply));
                    turn = call.resume(reply);
                }
                Turn::Done(outcome) => return outcome,
            }
        }
    }
}

impl Mock {
    /// The expected type at a position (from 0).
    fn with_term_goal(mut self, line: u32, column: u32, v: Option<Json>) -> Mock {
        if let Some(v) = v {
            self.term_goals.push(((line, column), v));
        }
        self
    }
}

#[test]
fn goal_with_column_returns_goals() {
    let mut client = Mock::new("import Mathlib\n  exact h\ntheorem foo : True := by")
        .with_goal(1, 2, Some(j(r##"{"goals": ["a : Nat\n|- a = a"]}"##)));

    let result = client.run(handle_lean_goal("Main.lean", 2, Some(3))).unwrap();

    assert_eq!(result.line_context, "  exact h");
    assert_eq!(result.goals, Some(vec!["a : Nat\n|- a = a".to_string()]));
    assert!(result.goals_before.is_none());
    assert!(result.goals_after.is_none());
}

#[test]
fn goal_without_column_returns_before_and_after() {
    // Line "  simp" has first non-ws at column 2 (0-indexed) and trimmed end at column 6.
    let mut client = Mock::new("theorem foo : Nat := by\n  simp\n  done")
        .with_goal(1, 2, Some(j(r##"{"goals": ["|- 0 = 0"]}"##)))
        .with_goal(1, 6, Some(j(r##"{"goals": []}"##)));

    let result = client.run(handle_lean_goal("Main.lean", 2, None)).unwrap();

    assert_eq!(result.line_context, "  simp");
    assert!(result.goals.is_none());
    assert_eq!(result.goals_before, Some(vec!["|- 0 = 0".to_string()]));
    assert_eq!(result.goals_after, Some(vec![]));
}

#[test]
fn goal_line_out_of_range_returns_error() {
    let mut client = Mock::new("line one\nline two");

    let err = client.run(handle_lean_goal("Main.lean", 5, Some(1))).unwrap_err();

    match err {
        LeanToolError::LineOutOfRange { line, total } => {
            assert_eq!(line, 5);
            assert_eq!(total, 2);
        }
        other => panic!("expected LineOutOfRange, got: {other:?}"),
    }
}

#[test]
fn goal_line_zero_returns_error() {
    let mut client = Mock::new("line one");

    let err = client.run(handle_lean_goal("Main.lean", 0, Some(1))).unwrap_err();

    match err {
        LeanToolError::LineOutOfRange { line, total } => {
            assert_eq!(line, 0);
            assert_eq!(total, 1);
        }
        other => panic!("expected LineOutOfRange, got: {other:?}"),
    }
}

#[test]
fn goal_column_out_of_range_returns_error() {
    let mut client = Mock::new("short");

    let err = client.run(handle_lean_goal("Main.lean", 1, Some(100))).unwrap_err();

    match err {
        LeanToolError::ColumnOutOfRange { column, length } => {
            assert_eq!(column, 100);
            assert_eq!(length, 5);
        }
        other => panic!("expected ColumnOutOfRange, got: {other:?}"),
    }
}

#[test]
fn goal_with_column_empty_response_returns_empty_goals() {
    let mut client = Mock::new("  exact h").with_goal(0, 2, None);

    let result = client.run(handle_lean_goal("Main.lean", 1, Some(3))).unwrap();

    assert_eq!(result.goals, Some(vec![]));
}

#[test]
fn term_goal_returns_expected_type() {
    let mut client = Mock::new("def foo := Nat.succ 0").with_term_goal(
        0,
        21,
        Some(j(r##"{"goal": "Nat"}"##)),
    );

    let result = client.run(handle_lean_term_goal("Main.lean", 1, None)).unwrap();

    assert_eq!(result.line_context, "def foo := Nat.succ 0");
    assert_eq!(result.expected_type, Some("Nat".to_string()));
}

#[test]
fn term_goal_strips_markdown_fences() {
    let mut client = Mock::new("def foo := Nat.succ 0").with_term_goal(
        0,
        21,
        Some(j(r##"{"goal": "```lean\nNat -> Nat\n```"}"##)),
    );

    let result = client.run(handle_lean_term_goal("Main.lean", 1, None)).unwrap();

    assert_eq!(result.expected_type, Some("Nat -> Nat".to_string()));
}

#[test]
fn term_goal_none_response_returns_none_expected_type() {
    let mut client = Mock::new("import Mathlib").with_term_goal(0, 14, None);

    let result = client.run(handle_lean_term_goal("Main.lean", 1, None)).unwrap();

    assert_eq!(result.line_context, "import Mathlib");
    assert!(result.expected_type.is_none());
}

#[test]
fn term_goal_with_explicit_column() {
    let mut client = Mock::new("  foo bar baz").with_term_goal(
        0,
        5,
        Some(j(r##"{"goal": "Prop"}"##)),
    );

    let result = client.run(handle_lean_term_goal("Main.lean", 1, Some(6))).unwrap();

    assert_eq!(result.expected_type, Some("Prop".to_string()));
}

#[test]
fn term_goal_line_out_of_range() {
    let mut client = Mock::new("one line");

    let err = client.run(handle_lean_term_goal("Main.lean", 10, None)).unwrap_err();

    match err {
        LeanToolError::LineOutOfRange { line, total } => {
            assert_eq!(line, 10);
            assert_eq!(total, 1);
        }
        other => panic!("expected LineOutOfRange, got: {other:?}"),
    }
}
