#![allow(dead_code)]

use lean_mcp_server::json::{parse_json, Json};
use lean_mcp_server::models::GoalDiffResult;
use lean_mcp_server::protocol::{Call, Reply, Request, Turn};
use lean_mcp_server::tools::references::handle_references;

/// A JSON value, from its text.
fn j(text: &str) -> Json {
    parse_json(text).unwrap()
}

/// A stand-in for all that a tool may ask for.
struct Mock {
    content: String,
    goals: Vec<((u32, u32), Vec<String>)>,
    term_goals: Vec<((u32, u32), Json)>,
    hover: Option<Json>,
    diagnostics: Json,
    interactive: Vec<Json>,
    symbols: Vec<Json>,
    completions: Vec<Json>,
    declarations: Vec<((u32, u32), Vec<Json>)>,
    references: Vec<Json>,
    actions: Vec<Json>,
    resolved: Json,
    widgets: Vec<Json>,
    widget_source: Json,
    files: Vec<(String, String)>,
    failing: Vec<(&'static str, &'static str)>,
    asked: Vec<Request>,
}

fn copies(values: &[Json]) -> Vec<Json> {
    values.iter().map(|v| v.duplicate()).collect()
}

impl Mock {
    fn new(content: &str) -> Mock {
        Mock {
            content: content.to_string(),
            goals: vec![],
            term_goals: vec![],
            hover: None,
            diagnostics: j(r#"{"diagnostics": [], "success": true}"#),
            interactive: vec![],
            symbols: vec![],
            completions: vec![],
            declarations: vec![],
            references: vec![],
            actions: vec![],
            resolved: j("{}"),
            widgets: vec![],
            widget_source: j("{}"),
            files: vec![],
            failing: vec![],
            asked: vec![],
        }
    }

    /// The goals at a position (from 0).
    fn with_goal(mut self, line: u32, column: u32, goals: Option<Json>) -> Mock {
        let list = match &goals {
            Some(v) => match v.items_member("goals") {
                Some(items) => items.iter().map(|g| g.as_str().unwrap().to_string()).collect(),
                None => vec![],
            },
            None => vec![],
        };
        self.goals.push(((line, column), list));
        self
    }

    /// The name of a request.
    fn name(q: &Request) -> String {
        let shown = format!("{q:?}");
        shown.split([' ', '{']).next().unwrap().to_string()
    }

    /// The names of all requests so far.
    fn names(&self) -> Vec<String> {
        self.asked.iter().map(Mock::name).collect()
    }

    fn reply(&self, q: &Request) -> Reply {
        for (name, message) in &self.failing {
            if Mock::name(q) == *name {
                return Reply::Failed(message.to_string());
            }
        }
        match q {
            Request::FileContent { .. } => Reply::Text(self.content.clone()),
            Request::Goal { line, column, .. } => {
                for ((l, c), goals) in &self.goals {
                    if l == line && c == column {
                        return Reply::Texts(goals.clone());
                    }
                }
                Reply::Texts(vec![])
            }
            Request::TermGoal { line, column, .. } => {
                for ((l, c), v) in &self.term_goals {
                    if l == line && c == column {
                        return Reply::MaybeValue(Some(v.duplicate()));
                    }
                }
                Reply::MaybeValue(None)
            }
            Request::Hover { .. } => Reply::MaybeValue(self.hover.as_ref().map(|v| v.duplicate())),
            Request::Diagnostics { .. } => Reply::Value(self.diagnostics.duplicate()),
            Request::InteractiveDiagnostics { .. } => Reply::Values(copies(&self.interactive)),
            Request::Symbols { .. } => Reply::Values(copies(&self.symbols)),
            Request::Completions { .. } => Reply::Values(copies(&self.completions)),
            Request::Declarations { line, column, .. } => {
                for ((l, c), found) in &self.declarations {
                    if l == line && c == column {
                        return Reply::Values(copies(found));
                    }
                }
                Reply::Values(vec![])
            }
            Request::References { .. } => Reply::Values(copies(&self.references)),
            Request::CodeActions { .. } => Reply::Values(copies(&self.actions)),
            Request::ResolveAction { .. } => Reply::Value(self.resolved.duplicate()),
            Request::Widgets { .. } => Reply::Values(copies(&self.widgets)),
            Request::WidgetSource { .. } => Reply::Value(self.widget_source.duplicate()),
            Request::ReadFile { path } => match self.files.iter().find(|(p, _)| p == path) {
                Some((_, content)) => Reply::Text(content.clone()),
                None => Reply::Failed("No such file or directory (os error 2)".to_string()),
            },
            Request::FindSymbol { content, symbol } => {
                for (i, line) in content.lines().enumerate() {
                    if let Some(column) = line.find(symbol.as_str()) {
                        return Reply::Position(Some((i, column)));
                    }
                }
                Reply::Position(None)
            }
            Request::UriPaths { uris } => Reply::Names(
                uris.iter().map(|u| u.strip_prefix("file://").map(|p| p.to_string())).collect(),
            ),
            Request::KindNames { kinds } => Reply::Names(
                kinds
                    .iter()
                    .map(|k| match k {
                        Some(3) => Some("Function".to_string()),
                        Some(6) => Some("Variable".to_string()),
                        Some(21) => Some("Constant".to_string()),
                        _ => None,
                    })
                    .collect(),
            ),
            Request::SeverityNames { severities } => Reply::Texts(
                severities
                    .iter()
                    .map(|s| match s {
                        1 => "error".to_string(),
                        2 => "warning".to_string(),
                        3 => "info".to_string(),
                        4 => "hint".to_string(),
                        n => format!("unknown({n})"),
                    })
                    .collect(),
            ),
            Request::DiffGoals { before, after } => Reply::Diff(GoalDiffResult {
                goals_added: after.clone(),
                goals_removed: before.clone(),
                hypotheses_added: vec![],
                hypotheses_removed: vec![],
                changed: before != after,
            }),
            Request::ErrorText { error } => Reply::Text(format!("{error:?}")),
            _ => Reply::Done,
        }
    }

    /// Plays a tool to its end.
    fn run<C: Call>(&mut self, turn: Turn<C, C::Out>) -> C::Out {
        let mut turn = turn;
        loop {
            match turn {
                Turn::Ask(q, call) => {
                    let reply = self.reply(&q);
                    self.asked.push(q);
                    assert!(call.accepts(&reply));
                    turn = call.resume(reply);
                }
                Turn::Done(outcome) => return outcome,
            }
        }
    }
}

impl Mock {
    fn with_references(mut self, references: Vec<Json>) -> Mock {
        self.references = references;
        self
    }
}

#[test]
fn references_returns_locations_with_1_indexed_positions() {
    let mut client = Mock::new("").with_references(vec![
        j(
            r##"{
                "uri": "file:///test/project/Main.lean",
                "range": {
                    "start": {"line": 4, "character": 10},
                    "end": {"line": 4, "character": 13}
                }
            }"##,
        ),
        j(
            r##"{
                "uri": "file:///test/project/Util.lean",
                "range": {
                    "start": {"line": 9, "character": 0},
                    "end": {"line": 9, "character": 3}
                }
            }"##,
        ),
    ]);

    let result = client.run(handle_references("Main.lean", 5, 11)).unwrap();

    assert_eq!(result.items.len(), 2);

    assert_eq!(result.items[0].file_path, "/test/project/Main.lean");
    assert_eq!(result.items[0].line, 5);
    assert_eq!(result.items[0].column, 11);
    assert_eq!(result.items[0].end_line, 5);
    assert_eq!(result.items[0].end_column, 14);

    assert_eq!(result.items[1].file_path, "/test/project/Util.lean");
    assert_eq!(result.items[1].line, 10);
    assert_eq!(result.items[1].column, 1);
}

#[test]
fn references_with_no_results_returns_empty_list() {
    let mut client = Mock::new("");

    let result = client.run(handle_references("Main.lean", 1, 1)).unwrap();

    assert!(result.items.is_empty());
}

#[test]
fn references_ensures_elaboration_before_querying() {
    let mut client = Mock::new("");

    let _ = client.run(handle_references("Main.lean", 1, 1)).unwrap();

    assert!(
        client.names().contains(&"Diagnostics".to_string()),
        "get_diagnostics should be called to ensure elaboration"
    );
}

#[test]
fn references_skips_malformed_entries() {
    let mut client = Mock::new("").with_references(vec![
        j(
            r##"{"range": {"start": {"line": 0, "character": 0}, "end": {"line": 0, "character": 1}}}"##,
        ), // no uri
        j(r##"{"uri": "file:///a.lean"}"##), // no range
        j(
            r##"{
                "uri": "file:///good.lean",
                "range": {
                    "start": {"line": 0, "character": 0},
                    "end": {"line": 0, "character": 3}
                }
            }"##,
        ),
    ]);

    let result = client.run(handle_references("Main.lean", 1, 1)).unwrap();

    assert_eq!(result.items.len(), 1);
    assert_eq!(result.items[0].file_path, "/good.lean");
}

#[test]
fn references_handles_multiple_files() {
    let mut client = Mock::new("").with_references(vec![
        j(
            r##"{
                "uri": "file:///project/A.lean",
                "range": {"start": {"line": 0, "character": 0}, "end": {"line": 0, "character": 5}}
            }"##,
        ),
        j(
            r##"{
                "uri": "file:///project/B.lean",
                "range": {"start": {"line": 10, "character": 3}, "end": {"line": 10, "character": 8}}
            }"##,
        ),
        j(
            r##"{
                "uri": "file:///project/C.lean",
                "range": {"start": {"line": 20, "character": 7}, "end": {"line": 22, "character": 0}}
            }"##,
        ),
    ]);

    let result = client.run(handle_references("A.lean", 1, 1)).unwrap();

    assert_eq!(result.items.len(), 3);
    assert_eq!(result.items[0].file_path, "/project/A.lean");
    assert_eq!(result.items[1].file_path, "/project/B.lean");
    assert_eq!(result.items[2].file_path, "/project/C.lean");
    assert_eq!(result.items[2].line, 21);
    assert_eq!(result.items[2].end_line, 23);
}
