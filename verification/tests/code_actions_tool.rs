#![allow(dead_code)]

use lean_mcp_server::json::{parse_json, Json};
use lean_mcp_server::models::GoalDiffResult;
use lean_mcp_server::protocol::{Call, Reply, Request, Turn};
use lean_mcp_server::tools::code_actions::handle_code_actions;

/// A JSON value, from its text.
fn j(text: &str) -> Json {
    parse_json(text).unwrap()
}

/// A stand-in for all that a tool may ask for.
struct Mock {
    content: String,
    goals: Vec<((u32, u32), Vec<String>)>,
    term_goals: Vec<((u32, u32), Json)>,
    hover: Option<Json>,
    diagnostics: Json,
    interactive: Vec<Json>,
    symbols: Vec<Json>,
    completions: Vec<Json>,
    declarations: Vec<((u32, u32), Vec<Json>)>,
    references: Vec<Json>,
    actions: Vec<Json>,
    resolved: Json,
    widgets: Vec<Json>,
    widget_source: Json,
    files: Vec<(String, String)>,
    failing: Vec<(&'static str, &'static str)>,
    asked: Vec<Request>,
}

fn copies(values: &[Json]) -> Vec<Json> {
    values.iter().map(|v| v.duplicate()).collect()
}

impl Mock {
    fn new(content: &str) -> Mock {
        Mock {
            content: content.to_string(),
            goals: vec![],
            term_goals: vec![],
            hover: None,
            diagnostics: j(r#"{"diagnostics": [], "success": true}"#),
            interactive: vec![],
            symbols: vec![],
            completions: vec![],
            declarations: vec![],
            references: vec![],
            actions: vec![],
            resolved: j("{}"),
            widgets: vec![],
            widget_source: j("{}"),
            files: vec![],
            failing: vec![],
            asked: vec![],
        }
    }

    /// The goals at a position (from 0).
    fn with_goal(mut self, line: u32, column: u32, goals: Option<Json>) -> Mock {
        let list = match &goals {
            Some(v) => match v.items_member("goals") {
                Some(items) => items.iter().map(|g| g.as_str().unwrap().to_string()).collect(),
                None => vec![],
            },
            None => vec![],
        };
        self.goals.push(((line, column), list));
        self
    }

    /// The name of a request.
    fn name(q: &Request) -> String {
        let shown = format!("{q:?}");
        shown.split([' ', '{']).next().unwrap().to_string()
    }

    /// The names of all requests so far.
    fn names(&self) -> Vec<String> {
        self.asked.iter().map(Mock::name).collect()
    }

    fn reply(&self, q: &Request) -> Reply {
        for (name, message) in &self.failing {
            if Mock::name(q) == *name {
                return Reply::Failed(message.to_string());
            }
        }
        match q {
            Request::FileContent { .. } => Reply::Text(self.content.clone()),
            Request::Goal { line, column, .. } => {
                for ((l, c), goals) in &self.goals {
                    if l == line && c == column {
                        return Reply::Texts(goals.clone());
                    }
                }
                Reply::Texts(vec![])
            }
            Request::TermGoal { line, column, .. } => {
                for ((l, c), v) in &self.term_goals {
                    if l == line && c == column {
                        return Reply::MaybeValue(Some(v.duplicate()));
                    }
                }
                Reply::MaybeValue(None)
            }
            Request::Hover { .. } => Reply::MaybeValue(self.hover.as_ref().map(|v| v.duplicate())),
            Request::Diagnostics { .. } => Reply::Value(self.diagnostics.duplicate()),
            Request::InteractiveDiagnostics { .. } => Reply::Values(copies(&self.interactive)),
            Request::Symbols { .. } => Reply::Values(copies(&self.symbols)),
            Request::Completions { .. } => Reply::Values(copies(&self.completions)),
            Request::Declarations { line, column, .. } => {
                for ((l, c), found) in &self.declarations {
                    if l == line && c == column {
                        return Reply::Values(copies(found));
                    }
                }
                Reply::Values(vec![])
            }
            Request::References { .. } => Reply::Values(copies(&self.references)),
            Request::CodeActions { .. } => Reply::Values(copies(&self.actions)),
            Request::ResolveAction { .. } => Reply::Value(self.resolved.duplicate()),
            Request::Widgets { .. } => Reply::Values(copies(&self.widgets)),
            Request::WidgetSource { .. } => Reply::Value(self.widget_source.duplicate()),
            Request::ReadFile { path } => match self.files.iter().find(|(p, _)| p == path) {
                Some((_, content)) => Reply::Text(content.clone()),
                None => Reply::Failed("No such file or directory (os error 2)".to_string()),
            },
            Request::FindSymbol { content, symbol } => {
                for (i, line) in content.lines().enumerate() {
                    if let Some(column) = line.find(symbol.as_str()) {
                        return Reply::Position(Some((i, column)));
                    }
                }
                Reply::Position(None)
            }
            Request::UriPaths { uris } => Reply::Names(
                uris.iter().map(|u| u.strip_prefix("file://").map(|p| p.to_string())).collect(),
            ),
            Request::KindNames { kinds } => Reply::Names(
                kinds
                    .iter()
                    .map(|k| match k {
                        Some(3) => Some("Function".to_string()),
                        Some(6) => Some("Variable".to_string()),
                        Some(21) => Some("Constant".to_string()),
                        _ => None,
                    })
                    .collect(),
            ),
            Request::SeverityNames { severities } => Reply::Texts(
                severities
                    .iter()
                    .map(|s| match s {
                        1 => "error".to_string(),
                        2 => "warning".to_string(),
                        3 => "info".to_string(),
                        4 => "hint".to_string(),
                        n => format!("unknown({n})"),
                    })
                    .collect(),
            ),
            Request::DiffGoals { before, after } => Reply::Diff(GoalDiffResult {
                goals_added: after.clone(),
                goals_removed: before.clone(),
                hypotheses_added: vec![],
                hypotheses_removed: vec![],
                changed: before != after,
            }),
            Request::ErrorText { error } => Reply::Text(format!("{error:?}")),
            _ => Reply::Done,
        }
    }

    /// Plays a tool to its end.
    fn run<C: Call>(&mut self, turn: Turn<C, C::Out>) -> C::Out {
        let mut turn = turn;
        loop {
            match turn {
                Turn::Ask(q, call) => {
                    let reply = self.reply(&q);
                    self.asked.push(q);
                    assert!(call.accepts(&reply));
                    turn = call.resume(reply);
                }
                Turn::Done(outcome) => return outcome,
            }
        }
    }
}

impl Mock {
    fn with_diagnostics(mut self, diagnostics: Vec<Json>) -> Mock {
        self.diagnostics = Json::Object(vec![
            ("diagnostics".to_string(), Json::Array(diagnostics)),
            ("success".to_string(), Json::Bool(true)),
        ]);
        self
    }

    fn with_code_actions(mut self, actions: Vec<Json>) -> Mock {
        self.actions = actions;
        self
    }

    fn with_resolve(mut self, action: Json) -> Mock {
        self.resolved = action;
        self
    }
}

#[test]
fn code_actions_returns_actions_with_edits() {
    let mut client = Mock::new("")
        .with_diagnostics(vec![j(
            r##"{
                "range": {
                    "start": {"line": 4, "character": 2},
                    "end": {"line": 4, "character": 10}
                },
                "severity": 1,
                "message": "unknown tactic"
            }"##,
        )])
        .with_code_actions(vec![j(
            r##"{
                "title": "Try this: simp only [Nat.add_comm]",
                "isPreferred": true,
                "edit": {
                    "documentChanges": [{
                        "edits": [{
                            "range": {
                                "start": {"line": 4, "character": 2},
                                "end": {"line": 4, "character": 10}
                            },
                            "newText": "simp only [Nat.add_comm]"
                        }]
                    }]
                }
            }"##,
        )]);

    let result = client.run(handle_code_actions("Main.lean", 5)).unwrap();

    assert_eq!(result.actions.len(), 1);
    assert_eq!(
        result.actions[0].title,
        "Try this: simp only [Nat.add_comm]"
    );
    assert!(result.actions[0].is_preferred);
    assert_eq!(result.actions[0].edits.len(), 1);
    assert_eq!(
        result.actions[0].edits[0].new_text,
        "simp only [Nat.add_comm]"
    );
    // Positions should be 1-indexed: line 4 -> 5, char 2 -> 3
    assert_eq!(result.actions[0].edits[0].start_line, 5);
    assert_eq!(result.actions[0].edits[0].start_column, 3);
    assert_eq!(result.actions[0].edits[0].end_line, 5);
    assert_eq!(result.actions[0].edits[0].end_column, 11);
}

#[test]
fn code_actions_deduplicates_by_title() {
    let mut client = Mock::new("")
        .with_diagnostics(vec![
            j(
                r##"{
                    "range": {
                        "start": {"line": 2, "character": 0},
                        "end": {"line": 2, "character": 5}
                    },
                    "severity": 1,
                    "message": "error 1"
                }"##,
            ),
            j(
                r##"{
                    "range": {
                        "start": {"line": 2, "character": 3},
                        "end": {"line": 2, "character": 8}
                    },
                    "severity": 1,
                    "message": "error 2"
                }"##,
            ),
        ])
        .with_code_actions(vec![
            j(
                r##"{
                    "title": "Try this: exact rfl",
                    "edit": {
                        "documentChanges": [{
                            "edits": [{
                                "range": {
                                    "start": {"line": 2, "character": 0},
                                    "end": {"line": 2, "character": 5}
                                },
                                "newText": "exact rfl"
                            }]
                        }]
                    }
                }"##,
            ),
            j(
                r##"{
                    "title": "Try this: exact rfl",
                    "edit": {
                        "documentChanges": [{
                            "edits": [{
                                "range": {
                                    "start": {"line": 2, "character": 0},
                                    "end": {"line": 2, "character": 5}
                                },
                                "newText": "exact rfl"
                            }]
                        }]
                    }
                }"##,
            ),
        ]);

    let result = client.run(handle_code_actions("Main.lean", 3)).unwrap();

    // Despite two diagnostics producing the same action title, only one should appear.
    assert_eq!(result.actions.len(), 1);
    assert_eq!(result.actions[0].title, "Try this: exact rfl");
}

#[test]
fn code_actions_resolves_unresolved_actions() {
    let mut client = Mock::new("")
        .with_diagnostics(vec![j(
            r##"{
                "range": {
                    "start": {"line": 5, "character": 0},
                    "end": {"line": 5, "character": 10}
                },
                "severity": 2,
                "message": "unused variable"
            }"##,
        )])
        .with_code_actions(vec![j(r##"{ "title": "Remove unused variable", "kind": "quickfix" }"##)])
        .with_resolve(j(
            r##"{
                "title": "Remove unused variable",
                "isPreferred": false,
                "edit": {
                    "changes": {
                        "file:///test/Main.lean": [{
                            "range": {
                                "start": {"line": 5, "character": 0},
                                "end": {"line": 5, "character": 10}
                            },
                            "newText": ""
                        }]
                    }
                }
            }"##,
        ));

    let result = client.run(handle_code_actions("Main.lean", 6)).unwrap();

    assert_eq!(result.actions.len(), 1);
    assert_eq!(result.actions[0].title, "Remove unused variable");
    assert!(!result.actions[0].is_preferred);
    assert_eq!(result.actions[0].edits.len(), 1);
    assert_eq!(result.actions[0].edits[0].new_text, "");
}

#[test]
fn code_actions_empty_line_returns_empty_actions() {
    let mut client = Mock::new("");

    let result = client.run(handle_code_actions("Main.lean", 1)).unwrap();

    assert!(result.actions.is_empty());
}

#[test]
fn code_actions_positions_are_1_indexed_in_output() {
    let mut client = Mock::new("")
        .with_diagnostics(vec![j(
            r##"{
                "range": {
                    "start": {"line": 0, "character": 0},
                    "end": {"line": 0, "character": 5}
                },
                "severity": 1,
                "message": "error"
            }"##,
        )])
        .with_code_actions(vec![j(
            r##"{
                "title": "Fix it",
                "edit": {
                    "documentChanges": [{
                        "edits": [{
                            "range": {
                                "start": {"line": 0, "character": 0},
                                "end": {"line": 0, "character": 5}
                            },
                            "newText": "fixed"
                        }]
                    }]
                }
            }"##,
        )]);

    let result = client.run(handle_code_actions("Main.lean", 1)).unwrap();

    assert_eq!(result.actions.len(), 1);
    let edit = &result.actions[0].edits[0];
    // LSP (0,0)-(0,5) should become 1-indexed (1,1)-(1,6)
    assert_eq!(edit.start_line, 1);
    assert_eq!(edit.start_column, 1);
    assert_eq!(edit.end_line, 1);
    assert_eq!(edit.end_column, 6);
}

#[test]
fn code_actions_returns_multiple_distinct_actions() {
    let mut client = Mock::new("")
        .with_diagnostics(vec![j(
            r##"{
                "range": {
                    "start": {"line": 3, "character": 0},
                    "end": {"line": 3, "character": 15}
                },
                "severity": 1,
                "message": "type mismatch"
            }"##,
        )])
        .with_code_actions(vec![
            j(
                r##"{
                    "title": "Try this: simp",
                    "edit": {
                        "documentChanges": [{
                            "edits": [{
                                "range": {
                                    "start": {"line": 3, "character": 0},
                                    "end": {"line": 3, "character": 15}
                                },
                                "newText": "simp"
                            }]
                        }]
                    }
                }"##,
            ),
            j(
                r##"{
                    "title": "Try this: ring",
                    "edit": {
                        "documentChanges": [{
                            "edits": [{
                                "range": {
                                    "start": {"line": 3, "character": 0},
                                    "end": {"line": 3, "character": 15}
                                },
                                "newText": "ring"
                            }]
                        }]
                    }
                }"##,
            ),
        ]);

    let result = client.run(handle_code_actions("Main.lean", 4)).unwrap();

    assert_eq!(result.actions.len(), 2);
    assert_eq!(result.actions[0].title, "Try this: simp");
    assert_eq!(result.actions[1].title, "Try this: ring");
}
