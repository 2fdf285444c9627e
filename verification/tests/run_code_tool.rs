#![allow(dead_code)]

use lean_mcp_server::error::LeanToolError;
use lean_mcp_server::json::{parse_json, Json};
use lean_mcp_server::models::GoalDiffResult;
use lean_mcp_server::protocol::{Call, Reply, Request, Turn};
use lean_mcp_server::tools::run_code::handle_run_code;

/// A JSON value, from its text.
fn j(text: &str) -> Json {
    parse_json(text).unwrap()
}

/// A stand-in for all that a tool may ask for.
struct Mock {
    content: String,
    goals: Vec<((u32, u32), Vec<String>)>,
    term_goals: Vec<((u32, u32), Json)>,
    hover: Option<Json>,
    diagnostics: Json,
    interactive: Vec<Json>,
    symbols: Vec<Json>,
    completions: Vec<Json>,
    declarations: Vec<((u32, u32), Vec<Json>)>,
    references: Vec<Json>,
    actions: Vec<Json>,
    resolved: Json,
    widgets: Vec<Json>,
    widget_source: Json,
    files: Vec<(String, String)>,
    failing: Vec<(&'static str, &'static str)>,
    asked: Vec<Request>,
}

fn copies(values: &[Json]) -> Vec<Json> {
    values.iter().map(|v| v.duplicate()).collect()
}

impl Mock {
    fn new(content: &str) -> Mock {
        Mock {
            content: content.to_string(),
            goals: vec![],
            term_goals: vec![],
            hover: None,
            diagnostics: j(r#"{"diagnostics": [], "success": true}"#),
            interactive: vec![],
            symbols: vec![],
            completions: vec![],
            declarations: vec![],
            references: vec![],
            actions: vec![],
            resolved: j("{}"),
            widgets: vec![],
            widget_source: j("{}"),
            files: vec![],
            failing: vec![],
            asked: vec![],
        }
    }

    /// The goals at a position (from 0).
    fn with_goal(mut self, line: u32, column: u32, goals: Option<Json>) -> Mock {
        let list = match &goals {
            Some(v) => match v.items_member("goals") {
                Some(items) => items.iter().map(|g| g.as_str().unwrap().to_string()).collect(),
                None => vec![],
            },
            None => vec![],
        };
        self.goals.push(((line, column), list));
        self
    }

    /// The name of a request.
    fn name(q: &Request) -> String {
        let shown = format!("{q:?}");
        shown.split([' ', '{']).next().unwrap().to_string()
    }

    /// The names of all requests so far.
    fn names(&self) -> Vec<String> {
        self.asked.iter().map(Mock::name).collect()
    }

    fn reply(&self, q: &Request) -> Reply {
        for (name, message) in &self.failing {
            if Mock::name(q) == *name {
                return Reply::Failed(message.to_string());
            }
        }
        match q {
            Request::FileContent { .. } => Reply::Text(self.content.clone()),
            Request::Goal { line, column, .. } => {
                for ((l, c), goals) in &self.goals {
                    if l == line && c == column {
                        return Reply::Texts(goals.clone());
                    }
                }
                Reply::Texts(vec![])
            }
            Request::TermGoal { line, column, .. } => {
                for ((l, c), v) in &self.term_goals {
                    if l == line && c == column {
                        return Reply::MaybeValue(Some(v.duplicate()));
                    }
                }
                Reply::MaybeValue(None)
            }
            Request::Hover { .. } => Reply::MaybeValue(self.hover.as_ref().map(|v| v.duplicate())),
            Request::Diagnostics { .. } => Reply::Value(self.diagnostics.duplicate()),
            Request::InteractiveDiagnostics { .. } => Reply::Values(copies(&self.interactive)),
            Request::Symbols { .. } => Reply::Values(copies(&self.symbols)),
            Request::Completions { .. } => Reply::Values(copies(&self.completions)),
            Request::Declarations { line, column, .. } => {
                for ((l, c), found) in &self.declarations {
                    if l == line && c == column {
                        return Reply::Values(copies(found));
                    }
                }
                Reply::Values(vec![])
            }
            Request::References { .. } => Reply::Values(copies(&self.references)),
            Request::CodeActions { .. } => Reply::Values(copies(&self.actions)),
            Request::ResolveAction { .. } => Reply::Value(self.resolved.duplicate()),
            Request::Widgets { .. } => Reply::Values(copies(&self.widgets)),
            Request::WidgetSource { .. } => Reply::Value(self.widget_source.duplicate()),
            Request::ReadFile { path } => match self.files.iter().find(|(p, _)| p == path) {
                Some((_, content)) => Reply::Text(content.clone()),
                None => Reply::Failed("No such file or directory (os error 2)".to_string()),
            },
            Request::FullPath { path } => Reply::Text(if path.starts_with('/') {
                path.clone()
            } else {
                format!("/project/{path}")
            }),
            Request::FindSymbol { content, symbol } => {
                for (i, line) in content.lines().enumerate() {
                    if let Some(column) = line.find(symbol.as_str()) {
                        return Reply::Position(Some((i, column)));
                    }
                }
                Reply::Position(None)
            }
            Request::UriPaths { uris } => Reply::Names(
                uris.iter().map(|u| u.strip_prefix("file://").map(|p| p.to_string())).collect(),
            ),
            Request::KindNames { kinds } => Reply::Names(
                kinds
                    .iter()
                    .map(|k| match k {
                        Some(3) => Some("Function".to_string()),
                        Some(6) => Some("Variable".to_string()),
                        Some(21) => Some("Constant".to_string()),
                        _ => None,
                    })
                    .collect(),
            ),
            Request::SeverityNames { severities } => Reply::Texts(
                severities
                    .iter()
                    .map(|s| match s {
                        1 => "error".to_string(),
                        2 => "warning".to_string(),
                        3 => "info".to_string(),
                        4 => "hint".to_string(),
                        n => format!("unknown({n})"),
                    })
                    .collect(),
            ),
            Request::DiffGoals { before, after } => Reply::Diff(GoalDiffResult {
                goals_added: after.clone(),
                goals_removed: before.clone(),
                hypotheses_added: vec![],
                hypotheses_removed: vec![],
                changed: before != after,
            }),
            Request::ErrorText { error } => Reply::Text(format!("{error:?}")),
            _ => Reply::Done,
        }
    }

    /// Plays a tool to its end.
    fn run<C: Call>(&mut self, turn: Turn<C, C::Out>) -> C::Out {
        let mut turn = turn;
        loop {
            match turn {
                Turn::Ask(q, call) => {
                    let reply = self.reply(&q);
                    self.asked.push(q);
                    assert!(call.accepts(&reply));
                    turn = call.resume(reply);
                }
                Turn::Done(outcome) => return outcome,
            }
        }
    }
}

impl Mock {
    fn with_diagnostics(mut self, diagnostics: Vec<Json>) -> Mock {
        self.diagnostics = Json::Object(vec![
            ("diagnostics".to_string(), Json::Array(diagnostics)),
            ("success".to_string(), Json::Bool(true)),
        ]);
        self
    }
}

#[test]
fn run_code_success_no_errors() {
    let mut client = Mock::new("");

    let result = client.run(handle_run_code("def foo := 42", None, None)).unwrap();

    assert!(result.success);
    assert!(result.diagnostics.is_empty());
}

#[test]
fn run_code_with_errors() {
    let mut client = Mock::new("").with_diagnostics(vec![j(
        r##"{
            "range": {
                "start": {"line": 0, "character": 4},
                "end": {"line": 0, "character": 10}
            },
            "severity": 1,
            "message": "unknown identifier 'bad'"
        }"##,
    )]);

    let result = client.run(handle_run_code("def x := bad", None, None)).unwrap();

    assert!(!result.success);
    assert_eq!(result.diagnostics.len(), 1);
    assert_eq!(result.diagnostics[0].severity, "error");
    assert_eq!(result.diagnostics[0].message, "unknown identifier 'bad'");
    assert_eq!(result.diagnostics[0].line, 1);
    assert_eq!(result.diagnostics[0].column, 5);
}

#[test]
fn run_code_warnings_only_counts_as_success() {
    let mut client = Mock::new("").with_diagnostics(vec![j(
        r##"{
            "range": {
                "start": {"line": 0, "character": 0},
                "end": {"line": 0, "character": 5}
            },
            "severity": 2,
            "message": "unused variable"
        }"##,
    )]);

    let result = client.run(handle_run_code("def x := 42", None, None)).unwrap();

    assert!(result.success);
    assert_eq!(result.diagnostics.len(), 1);
    assert_eq!(result.diagnostics[0].severity, "warning");
}

#[test]
fn run_code_without_file_context_unchanged() {
    // Verify that calling without file_context behaves.
    let mut client = Mock::new("").with_diagnostics(vec![j(
        r##"{
            "range": {
                "start": {"line": 2, "character": 0},
                "end": {"line": 2, "character": 5}
            },
            "severity": 1,
            "message": "some error"
        }"##,
    )]);

    let result = client.run(handle_run_code("def x := bad", None, None)).unwrap();

    assert!(!result.success);
    assert_eq!(result.diagnostics.len(), 1);
    // Line should be 2 (0-indexed) + 1 = 3 with no context adjustment.
    assert_eq!(result.diagnostics[0].line, 3);
}

#[test]
fn run_code_cleans_up_temp_file() {
    let mut client = Mock::new("");
    client.run(handle_run_code("#check Nat", None, None)).unwrap();
    let written: Vec<&String> = client
        .asked
        .iter()
        .filter_map(|q| match q {
            Request::WriteFile { path, .. } => Some(path),
            _ => None,
        })
        .collect();
    let removed: Vec<&String> = client
        .asked
        .iter()
        .filter_map(|q| match q {
            Request::RemoveFile { path } => Some(path),
            _ => None,
        })
        .collect();
    assert_eq!(written.len(), 1);
    assert_eq!(written, removed, "temp file was not cleaned up");
}

#[test]
fn temp_files_in_lake_mcp_dir() {
    let mut client = Mock::new("");
    client.run(handle_run_code("#check Nat", None, None)).unwrap();
    let opened: Vec<&String> = client
        .asked
        .iter()
        .filter_map(|q| match q {
            Request::OpenFile { path } => Some(path),
            _ => None,
        })
        .collect();
    assert_eq!(opened.len(), 1);
    assert!(
        opened[0].starts_with(".lake/_mcp/_mcp_snippet_"),
        "temp file should be in .lake/_mcp/, got: {}",
        opened[0]
    );
    assert!(opened[0].ends_with(".lean"));
}

#[test]
fn run_code_calls_close_files() {
    let mut client = Mock::new("");
    let _ = client.run(handle_run_code("#check Nat", None, None));
    assert!(client.names().contains(&"CloseFile".to_string()), "close_files should be called");
}

#[test]
fn run_code_with_file_context_prepends_content() {
    let mut client = Mock::new("").with_diagnostics(vec![
        j(
            r##"{
                "range": {"start": {"line": 0, "character": 0}, "end": {"line": 0, "character": 5}},
                "severity": 3,
                "message": "context info"
            }"##,
        ),
        j(
            r##"{
                "range": {"start": {"line": 3, "character": 0}, "end": {"line": 3, "character": 10}},
                "severity": 3,
                "message": "snippet info"
            }"##,
        ),
    ]);
    client.files.push((
        "MyModule.lean".to_string(),
        "import Init\n\ndef helper := 42\n".to_string(),
    ));

    let result = client
        .run(handle_run_code("#check helper", Some("MyModule.lean".to_string()), None)).unwrap();

    // Only the snippet diagnostic should be returned.
    assert!(result.success);
    assert_eq!(result.diagnostics.len(), 1);
    assert_eq!(result.diagnostics[0].message, "snippet info");
    // 0-indexed line 3 - 3 context lines + 1 = 1
    assert_eq!(result.diagnostics[0].line, 1);

    let content = client
        .asked
        .iter()
        .find_map(|q| match q {
            Request::WriteFile { content, .. } => Some(content),
            _ => None,
        }).unwrap();
    assert!(content.starts_with("import Init"));
    assert!(content.contains("def helper := 42"));
    assert!(content.contains("#check helper"));
    assert!(!content.contains("maxHeartbeats"));
}

#[test]
fn run_code_file_context_missing_file_returns_error() {
    let mut client = Mock::new("");
    let err = client
        .run(handle_run_code(
            "#check Nat",
            Some("/nonexistent/path/File.lean".to_string()),
            None,
        )).unwrap_err();
    match err {
        LeanToolError::Other(m) => assert_eq!(
            m,
            "Error reading file_context '/nonexistent/path/File.lean': \
             No such file or directory (os error 2)"
        ),
        other => panic!("expected Other, got: {other:?}"),
    }
}

#[test]
fn run_code_names_the_whole_path_of_a_missing_file() {
    let mut client = Mock::new("");
    let err = client
        .run(handle_run_code("#check Nat", Some("Sub/File.lean".to_string()), None))
        .unwrap_err();
    match err {
        LeanToolError::Other(m) => assert_eq!(
            m,
            "Error reading file_context '/project/Sub/File.lean': \
             No such file or directory (os error 2)"
        ),
        other => panic!("expected Other, got: {other:?}"),
    }
}

#[test]
fn run_code_begins_right_behind_its_context() {
    for (context, content) in [
        ("import Init\n\ndef helper := 42\n", "import Init\n\ndef helper := 42\n#check helper"),
        ("import Init\n\ndef helper := 42", "import Init\n\ndef helper := 42\n#check helper"),
        ("", "#check helper"),
    ] {
        let above = content.lines().count() - 1;
        let mut client = Mock::new("").with_diagnostics(vec![j(&format!(
            r##"{{
                "range": {{"start": {{"line": {above}, "character": 0}},
                    "end": {{"line": {above}, "character": 6}}}},
                "severity": 3,
                "message": "helper : Nat"
            }}"##
        ))]);
        client.files.push(("C.lean".to_string(), context.to_string()));
        let result = client
            .run(handle_run_code("#check helper", Some("C.lean".to_string()), None))
            .unwrap();
        assert_eq!(result.diagnostics.len(), 1);
        assert_eq!(result.diagnostics[0].line, 1);
        assert!(client.asked.iter().any(|q| match q {
            Request::WriteFile { content: written, .. } => written == content,
            _ => false,
        }));
    }
}

#[test]
fn run_code_limits_elaboration() {
    let mut client = Mock::new("");
    client.run(handle_run_code("def x := 1", None, Some("7".to_string()))).unwrap();
    let content = client
        .asked
        .iter()
        .find_map(|q| match q {
            Request::WriteFile { content, .. } => Some(content),
            _ => None,
        }).unwrap();
    assert_eq!(content, "set_option maxHeartbeats 7\ndef x := 1");
}

#[test]
fn run_code_that_cannot_be_opened_still_cleans_up() {
    let mut client = Mock::new("");
    client.failing.push(("OpenFile", "no server"));
    let err = client.run(handle_run_code("def x := 1", None, None)).unwrap_err();
    match err {
        LeanToolError::LspError { operation, message } => {
            assert_eq!(operation, "open_file");
            assert_eq!(message, "no server");
        }
        other => panic!("expected LspError, got: {other:?}"),
    }
    let names = client.names();
    assert_eq!(names[names.len() - 2..], ["CloseFile".to_string(), "RemoveFile".to_string()]);
}

#[test]
fn run_code_that_cannot_be_written_is_an_error() {
    let mut client = Mock::new("");
    client.failing.push(("WriteFile", "disk full"));
    let err = client.run(handle_run_code("def x := 1", None, None)).unwrap_err();
    match err {
        LeanToolError::Other(m) => assert_eq!(m, "Error writing code snippet: disk full"),
        other => panic!("expected Other, got: {other:?}"),
    }
}
