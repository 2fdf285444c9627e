#![allow(dead_code)]

use lean_mcp_server::error::LeanToolError;
use lean_mcp_server::json::{parse_json, Json};
use lean_mcp_server::models::{GoalDiffResult, MultiAttemptResult, SnippetRun};
use lean_mcp_server::protocol::{Call, Reply, Request, Turn};
use lean_mcp_server::tools::multi_attempt::{
    edit_fits, handle_multi_attempt, run_one_snippet_warm, run_snippet_isolated, Attempts,
};

/// A JSON value, from its text.
fn j(text: &str) -> Json {
    parse_json(text).unwrap()
}

/// A stand-in for all that a tool may ask for.
struct Mock {
    content: String,
    goals: Vec<((u32, u32), Vec<String>)>,
    term_goals: Vec<((u32, u32), Json)>,
    hover: Option<Json>,
    diagnostics: Json,
    interactive: Vec<Json>,
    symbols: Vec<Json>,
    completions: Vec<Json>,
    declarations: Vec<((u32, u32), Vec<Json>)>,
    references: Vec<Json>,
    actions: Vec<Json>,
    resolved: Json,
    widgets: Vec<Json>,
    widget_source: Json,
    files: Vec<(String, String)>,
    failing: Vec<(&'static str, &'static str)>,
    late: Vec<&'static str>,
    limit: Option<String>,
    runs: usize,
    asked: Vec<Request>,
}

fn copies(values: &[Json]) -> Vec<Json> {
    values.iter().map(|v| v.duplicate()).collect()
}

impl Mock {
    fn new(content: &str) -> Mock {
        Mock {
            content: content.to_string(),
            goals: vec![],
            term_goals: vec![],
            hover: None,
            diagnostics: j(r#"{"diagnostics": [], "success": true}"#),
            interactive: vec![],
            symbols: vec![],
            completions: vec![],
            declarations: vec![],
            references: vec![],
            actions: vec![],
            resolved: j("{}"),
            widgets: vec![],
            widget_source: j("{}"),
            files: vec![],
            failing: vec![],
            late: vec![],
            limit: None,
            runs: 0,
            asked: vec![],
        }
    }

    /// The goals at a position (from 0).
    fn with_goal(mut self, line: u32, column: u32, goals: Option<Json>) -> Mock {
        let list = match &goals {
            Some(v) => match v.items_member("goals") {
                Some(items) => items.iter().map(|g| g.as_str().unwrap().to_string()).collect(),
                None => vec![],
            },
            None => vec![],
        };
        self.goals.push(((line, column), list));
        self
    }

    /// The name of a request.
    fn name(q: &Request) -> String {
        let shown = format!("{q:?}");
        shown.split([' ', '{']).next().unwrap().to_string()
    }

    /// The names of all requests so far.
    fn names(&self) -> Vec<String> {
        self.asked.iter().map(Mock::name).collect()
    }

    fn reply(&self, q: &Request) -> Reply {
        for (name, message) in &self.failing {
            if Mock::name(q) == *name {
                return Reply::Failed(message.to_string());
            }
        }
        if self.late.contains(&Mock::name(q).as_str()) {
            return Reply::TimedOut;
        }
        match q {
            Request::RunSnippets { .. } => Reply::Snippets(
                (0..self.runs)
                    .map(|_| SnippetRun {
                        goals: vec!["|- True".to_string()],
                        messages: vec![j(
                            r#"{"severity": "warning", "data": "unused", "pos": {"line": 3, "column": 4}}"#,
                        )],
                        error: Some("boom".to_string()),
                    })
                    .collect(),
            ),
            Request::FileContent { .. } => Reply::Text(self.content.clone()),
            Request::Goal { line, column, .. } => {
                for ((l, c), goals) in &self.goals {
                    if l == line && c == column {
                        return Reply::Texts(goals.clone());
                    }
                }
                Reply::Texts(vec![])
            }
            Request::TermGoal { line, column, .. } => {
                for ((l, c), v) in &self.term_goals {
                    if l == line && c == column {
                        return Reply::MaybeValue(Some(v.duplicate()));
                    }
                }
                Reply::MaybeValue(None)
            }
            Request::Hover { .. } => Reply::MaybeValue(self.hover.as_ref().map(|v| v.duplicate())),
            Request::Diagnostics { .. } => Reply::Value(self.diagnostics.duplicate()),
            Request::InteractiveDiagnostics { .. } => Reply::Values(copies(&self.interactive)),
            Request::Symbols { .. } => Reply::Values(copies(&self.symbols)),
            Request::Completions { .. } => Reply::Values(copies(&self.completions)),
            Request::Declarations { line, column, .. } => {
                for ((l, c), found) in &self.declarations {
                    if l == line && c == column {
                        return Reply::Values(copies(found));
                    }
                }
                Reply::Values(vec![])
            }
            Request::References { .. } => Reply::Values(copies(&self.references)),
            Request::CodeActions { .. } => Reply::Values(copies(&self.actions)),
            Request::ResolveAction { .. } => Reply::Value(self.resolved.duplicate()),
            Request::Widgets { .. } => Reply::Values(copies(&self.widgets)),
            Request::WidgetSource { .. } => Reply::Value(self.widget_source.duplicate()),
            Request::ReadFile { path } => match self.files.iter().find(|(p, _)| p == path) {
                Some((_, content)) => Reply::Text(content.clone()),
                None => Reply::Failed("No such file or directory (os error 2)".to_string()),
            },
            Request::FindSymbol { content, symbol } => {
                for (i, line) in content.lines().enumerate() {
                    if let Some(column) = line.find(symbol.as_str()) {
                        return Reply::Position(Some((i, column)));
                    }
                }
                Reply::Position(None)
            }
            Request::UriPaths { uris } => Reply::Names(
                uris.iter().map(|u| u.strip_prefix("file://").map(|p| p.to_string())).collect(),
            ),
            Request::KindNames { kinds } => Reply::Names(
                kinds
                    .iter()
                    .map(|k| match k {
                        Some(3) => Some("Function".to_string()),
                        Some(6) => Some("Variable".to_string()),
                        Some(21) => Some("Constant".to_string()),
                        _ => None,
                    })
                    .collect(),
            ),
            Request::SeverityNames { severities } => Reply::Texts(
                severities
                    .iter()
                    .map(|s| match s {
                        1 => "error".to_string(),
                        2 => "warning".to_string(),
                        3 => "info".to_string(),
                        4 => "hint".to_string(),
                        n => format!("unknown({n})"),
                    })
                    .collect(),
            ),
            Request::DiffGoals { before, after } => Reply::Diff(GoalDiffResult {
                goals_added: after.clone(),
                goals_removed: before.clone(),
                hypotheses_added: vec![],
                hypotheses_removed: vec![],
                changed: before != after,
            }),
            Request::ErrorText { error } => Reply::Text(format!("{error:?}")),
            _ => Reply::Done,
        }
    }

    /// Plays a tool to its end.
    fn run<C: Call>(&mut self, turn: Turn<C, C::Out>) -> C::Out {
        let mut turn = turn;
        loop {
            match turn {
                Turn::Ask(q, call) => {
                    let reply = self.reply(&q);
                    self.asked.push(q);
                    assert!(call.accepts(&reply));
                    turn = call.resume(reply);
                }
                Turn::Done(outcome) => return outcome,
            }
        }
    }
}

impl Mock {
    fn with_diagnostics(mut self, diagnostics: Vec<Json>) -> Mock {
        self.diagnostics = Json::Object(vec![
            ("diagnostics".to_string(), Json::Array(diagnostics)),
            ("success".to_string(), Json::Bool(true)),
        ]);
        self
    }
}

impl Mock {
    /// What the language server holds.
    fn held(&self) -> String {
        let mut held = self.content.clone();
        for q in &self.asked {
            match q {
                Request::UpdateFile { .. } => held.push_str("edited"),
                Request::ReplaceContent { content, .. } => held = content.clone(),
                _ => {}
            }
        }
        held
    }

    /// The paths of all requests with a name.
    fn paths(&self, name: &str) -> Vec<String> {
        self.asked
            .iter()
            .filter(|q| Mock::name(q) == name)
            .map(|q| match q {
                Request::OpenFile { path }
                | Request::CloseFile { path }
                | Request::MakeDirectory { path }
                | Request::WriteFile { path, .. }
                | Request::RemoveFile { path } => path.clone(),
                other => panic!("no path: {other:?}"),
            })
            .collect()
    }

    /// Tries snippets, one after the other where they are to be tried at once.
    fn attempt(
        &mut self,
        path: &str,
        line: u32,
        snippets: &[String],
        column: Option<u32>,
        parallel: Option<bool>,
    ) -> Result<MultiAttemptResult, LeanToolError> {
        let turn = handle_multi_attempt(false, path, line, snippets.to_vec(), column, parallel);
        match self.run(turn)? {
            Attempts::Done(m) => Ok(m),
            Attempts::Parallel(plan) => {
                let mut items = vec![];
                for s in &plan.snippets {
                    let limit = self.limit.clone();
                    items.push(self.run(run_snippet_isolated(
                        s,
                        &plan.base_code,
                        &plan.indent,
                        limit,
                    )));
                }
                Ok(MultiAttemptResult { items })
            }
        }
    }
}

#[test]
fn lsp_single_snippet_returns_goals() {
    let mut client = Mock::new("theorem foo : True := by\n  sorry\n  done")
        .with_goal(1, 6, Some(j(r##"{"goals": ["|- True"]}"##)));

    let snippets = vec!["simp".to_string()];
    let result =
        client.attempt("Main.lean", 2, &snippets, None, None).unwrap();

    assert_eq!(result.items.len(), 1);
    assert_eq!(result.items[0].snippet, "simp");
    assert_eq!(result.items[0].goals, vec!["|- True"]);
    assert!(result.items[0].diagnostics.is_empty());
}

#[test]
fn lsp_multiple_snippets() {
    let mut client = Mock::new("theorem foo : True := by\n  sorry").with_goal(
        1,
        6,
        Some(j(r##"{"goals": ["|- True"]}"##)),
    );

    let snippets = vec!["simp".to_string(), "trivial".to_string()];
    let result =
        client.attempt("Main.lean", 2, &snippets, None, None).unwrap();

    assert_eq!(result.items.len(), 2);
    assert_eq!(result.items[0].snippet, "simp");
    assert_eq!(result.items[1].snippet, "trivial");
}

#[test]
fn lsp_explicit_column() {
    let mut client = Mock::new("theorem foo : True := by\n  sorry").with_goal(
        1,
        8,
        Some(j(r##"{"goals": []}"##)),
    );

    let snippets = vec!["simp".to_string()];
    let result = client.attempt("Main.lean", 2, &snippets, Some(5), None).unwrap();

    assert_eq!(result.items.len(), 1);
    assert_eq!(result.items[0].goals, Vec::<String>::new());
}

#[test]
fn lsp_with_diagnostics_in_range() {
    let mut client = Mock::new("theorem foo : True := by\n  sorry")
        .with_diagnostics(vec![j(
            r##"{
                "range": {
                    "start": {"line": 1, "character": 2},
                    "end": {"line": 1, "character": 7}
                },
                "severity": 1,
                "message": "unknown tactic"
            }"##,
        )])
        .with_goal(1, 6, None);

    let snippets = vec!["bad_tactic".to_string()];
    let result =
        client.attempt("Main.lean", 2, &snippets, None, None).unwrap();

    assert_eq!(result.items[0].diagnostics.len(), 1);
    assert_eq!(result.items[0].diagnostics[0].severity, "error");
    assert_eq!(result.items[0].diagnostics[0].message, "unknown tactic");
}

#[test]
fn lsp_diagnostics_outside_range_filtered() {
    let mut client = Mock::new("import Lean\ntheorem foo : True := by\n  sorry")
        .with_diagnostics(vec![j(
            r##"{
                "range": {
                    "start": {"line": 0, "character": 0},
                    "end": {"line": 0, "character": 5}
                },
                "severity": 2,
                "message": "import warning"
            }"##,
        )])
        .with_goal(2, 6, None);

    let snippets = vec!["simp".to_string()];
    let result =
        client.attempt("Main.lean", 3, &snippets, None, None).unwrap();

    assert!(result.items[0].diagnostics.is_empty());
}

#[test]
fn line_out_of_range() {
    let mut client = Mock::new("one line");

    let snippets = vec!["simp".to_string()];
    let err = client.attempt("Main.lean", 5, &snippets, None, None).unwrap_err();

    match err {
        LeanToolError::LineOutOfRange { line, total } => {
            assert_eq!(line, 5);
            assert_eq!(total, 1);
        }
        other => panic!("expected LineOutOfRange, got: {other:?}"),
    }
}

#[test]
fn column_out_of_range() {
    let mut client = Mock::new("short");

    let snippets = vec!["simp".to_string()];
    let err = client.attempt("Main.lean", 1, &snippets, Some(100), None).unwrap_err();

    match err {
        LeanToolError::ColumnOutOfRange { column, length } => {
            assert_eq!(column, 100);
            assert_eq!(length, 5);
        }
        other => panic!("expected ColumnOutOfRange, got: {other:?}"),
    }
}

#[test]
fn repl_skipped_when_column_specified() {
    let mut client = Mock::new("theorem foo : True := by\n  sorry").with_goal(
        1,
        6,
        Some(j(r##"{"goals": []}"##)),
    );

    let snippets = vec!["simp".to_string()];
    let result = client.attempt("Main.lean", 2, &snippets, Some(3), None).unwrap();

    assert_eq!(result.items.len(), 1);
}

#[test]
fn repl_skipped_when_multiline_snippet() {
    let mut client =
        Mock::new("theorem foo : True := by\n  sorry").with_goal(1, 6, None);

    let snippets = vec!["simp\nexact h".to_string()];
    let result =
        client.attempt("Main.lean", 2, &snippets, None, None).unwrap();

    assert_eq!(result.items.len(), 1);
}

#[test]
fn empty_snippets_returns_empty() {
    let mut client = Mock::new("theorem foo : True := by\n  sorry");

    let snippets: Vec<String> = vec![];
    let result =
        client.attempt("Main.lean", 2, &snippets, None, None).unwrap();

    assert!(result.items.is_empty());
}

#[test]
fn parallel_single_snippet_returns_results() {
    // goal queried at (1, 6) -- line 1 (0-indexed), col = indent(2) + len("simp")(4) = 6
    let mut client = Mock::new("theorem foo : True := by\n  sorry")
    .with_goal(1, 6, Some(j(r##"{"goals": ["|- True"]}"##)));

    let snippets = vec!["simp".to_string()];
    let result =
        client.attempt("Main.lean", 2, &snippets, None, Some(true)).unwrap();

    assert_eq!(result.items.len(), 1);
    assert_eq!(result.items[0].snippet, "simp");
    assert_eq!(result.items[0].goals, vec!["|- True"]);
    assert!(result.items[0].diagnostics.is_empty());
}

#[test]
fn parallel_multiple_snippets() {
    // goal columns: indent(2) + len("simp")(4) = 6, indent(2) + len("trivial")(7) = 9
    let mut client = Mock::new("theorem foo : True := by\n  sorry")
    .with_goal(1, 6, Some(j(r##"{"goals": ["|- True"]}"##)))
    .with_goal(1, 9, Some(j(r##"{"goals": []}"##)));

    let snippets = vec!["simp".to_string(), "trivial".to_string()];
    let result =
        client.attempt("Main.lean", 2, &snippets, None, Some(true)).unwrap();

    assert_eq!(result.items.len(), 2);
    assert_eq!(result.items[0].snippet, "simp");
    assert_eq!(result.items[1].snippet, "trivial");
}

#[test]
fn parallel_empty_snippets() {
    let mut client = Mock::new("theorem foo : True := by\n  sorry");

    let snippets: Vec<String> = vec![];
    let result =
        client.attempt("Main.lean", 2, &snippets, None, Some(true)).unwrap();

    assert!(result.items.is_empty());
}

#[test]
fn parallel_line_out_of_range() {
    let mut client = Mock::new("one line");

    let snippets = vec!["simp".to_string()];
    let err =
        client.attempt("Main.lean", 5, &snippets, None, Some(true)).unwrap_err();

    match err {
        LeanToolError::LineOutOfRange { line, total } => {
            assert_eq!(line, 5);
            assert_eq!(total, 1);
        }
        other => panic!("expected LineOutOfRange, got: {other:?}"),
    }
}

#[test]
fn parallel_diagnostics_captured() {
    let mut client = Mock::new("theorem foo : True := by\n  sorry")
    .with_diagnostics(vec![j(
        r##"{
            "range": {
                "start": {"line": 1, "character": 0},
                "end": {"line": 1, "character": 10}
            },
            "severity": 1,
            "message": "unknown tactic 'bad'"
        }"##,
    )]);

    let snippets = vec!["bad".to_string()];
    let result =
        client.attempt("Main.lean", 2, &snippets, None, Some(true)).unwrap();

    assert_eq!(result.items[0].diagnostics.len(), 1);
    assert_eq!(result.items[0].diagnostics[0].severity, "error");
    assert_eq!(
        result.items[0].diagnostics[0].message,
        "unknown tactic 'bad'"
    );
}

#[test]
fn parallel_diagnostics_outside_range_filtered() {
    let mut client = Mock::new("import Lean\ntheorem foo : True := by\n  sorry")
    .with_diagnostics(vec![j(
        r##"{
            "range": {
                "start": {"line": 0, "character": 0},
                "end": {"line": 0, "character": 5}
            },
            "severity": 2,
            "message": "import warning"
        }"##,
    )]);

    let snippets = vec!["simp".to_string()];
    let result =
        client.attempt("Main.lean", 3, &snippets, None, Some(true)).unwrap();

    assert!(
        result.items[0].diagnostics.is_empty(),
        "diagnostics outside snippet range should be filtered"
    );
}

#[test]
fn handle_multi_attempt_dispatches_parallel() {
    // goal column: indent(2) + len("simp")(4) = 6
    let mut client = Mock::new("theorem foo : True := by\n  sorry")
    .with_goal(1, 6, Some(j(r##"{"goals": ["|- True"]}"##)));

    let snippets = vec!["simp".to_string()];
    let result = client.attempt("Main.lean", 2, &snippets, None, Some(true)).unwrap();

    assert_eq!(result.items.len(), 1);
    assert_eq!(result.items[0].snippet, "simp");
}

#[test]
fn handle_multi_attempt_parallel_false_uses_lsp() {
    let mut client = Mock::new("theorem foo : True := by\n  sorry").with_goal(
        1,
        6,
        Some(j(r##"{"goals": ["|- True"]}"##)),
    );

    let snippets = vec!["simp".to_string()];
    let result = client.attempt("Main.lean", 2, &snippets, None, Some(false)).unwrap();

    assert_eq!(result.items.len(), 1);
    // LSP path used -> force reopen should be called
    assert!(client.names().contains(&"ReopenFile".to_string()));
}

#[test]
fn parallel_trailing_newline_trimmed() {
    let mut client = Mock::new("theorem foo : True := by\n  sorry");

    let snippets = vec!["simp\n".to_string()];
    let result =
        client.attempt("Main.lean", 2, &snippets, None, Some(true)).unwrap();

    assert_eq!(result.items[0].snippet, "simp");
}

#[test]
fn parallel_preserves_indentation_goal_column() {
    // File has 2-space indented sorry at line 3.
    // Prior tactic "intro h" at line 2.
    // The snippet "simp" should be written as "  simp" in the temp file,
    // so goal_column = indent(2) + len("simp")(4) = 6.
    let mut client = Mock::new("theorem foo : True := by\n  intro h\n  sorry")
    // Goal at (2, 6): line 2 (0-indexed) = snippet line, col 6 = 2 indent + 4 "simp"
    .with_goal(2, 6, Some(j(r##"{"goals": ["h : True\n|- True"]}"##)));

    let snippets = vec!["simp".to_string()];
    let result =
        client.attempt("Main.lean", 3, &snippets, None, Some(true)).unwrap();

    assert_eq!(result.items.len(), 1);
    assert_eq!(
        result.items[0].goals,
        vec!["h : True\n|- True"],
        "goal should be found at indented column (2 + 4 = 6)"
    );
}

#[test]
fn parallel_indentation_empty_base_code() {
    // Edge case: sorry is the FIRST line (line 1), so base_code is empty.
    // 4-space indent on the sorry line.
    let mut client = Mock::new("    sorry")
        // With empty base_code, snippet is at line 0 (0-indexed).
        // goal_column = 4 (indent) + 4 ("simp") = 8
        .with_goal(0, 8, Some(j(r##"{"goals": ["|- Nat"]}"##)));

    let snippets = vec!["simp".to_string()];
    let result =
        client.attempt("Main.lean", 1, &snippets, None, Some(true)).unwrap();

    assert_eq!(result.items.len(), 1);
    assert_eq!(
        result.items[0].goals,
        vec!["|- Nat"],
        "goal should be found at indented column even with empty base_code"
    );
}

#[test]
fn parallel_multiline_snippet_indented() {
    // A multi-line snippet "simp\nexact h" with 2-space indent should become:
    //   "  simp\n  exact h" in the temp file.
    // The goal is queried at the LAST line of the snippet.
    // Last snippet line = "exact h" (len 7), indent = 2
    // goal_column = 2 + 7 = 9
    let mut client = Mock::new("theorem foo : True := by\n  sorry")
    // snippet_start_line = 1 (base has 1 line: "theorem ...").
    // Multi-line snippet has 2 lines, so last line is at 1 + 2 - 1 = line 2.
    // goal_column = 2 + 7 = 9
    .with_goal(2, 9, Some(j(r##"{"goals": ["|- False"]}"##)));

    let snippets = vec!["simp\nexact h".to_string()];
    let result =
        client.attempt("Main.lean", 2, &snippets, None, Some(true)).unwrap();

    assert_eq!(result.items.len(), 1);
    assert_eq!(
        result.items[0].goals,
        vec!["|- False"],
        "multi-line snippet should have each line indented, goal at indent + last_line_len"
    );
}

#[test]
fn parallel_sorry_uses_target_indent() {
    // With 4-space indent, the sorry line should be "    sorry" not "  sorry".
    // We verify by checking diagnostics: the sorry line is at
    // snippet_start_line + snippet_line_count (0-indexed).
    // If we set a diagnostic at that line, it should be captured.
    let mut client = Mock::new("theorem foo : True := by\n    sorry")
    .with_diagnostics(vec![j(
        r##"{
            "range": {
                "start": {"line": 2, "character": 0},
                "end": {"line": 2, "character": 9}
            },
            "severity": 2,
            "message": "declaration uses sorry"
        }"##,
    )])
    // goal at (1, 8): indent(4) + len("simp")(4) = 8
    .with_goal(1, 8, Some(j(r##"{"goals": ["|- True"]}"##)));

    let snippets = vec!["simp".to_string()];
    let result =
        client.attempt("Main.lean", 2, &snippets, None, Some(true)).unwrap();

    // The sorry line diagnostic at line 2 should be captured (it's within range)
    assert_eq!(result.items[0].diagnostics.len(), 1);
    assert_eq!(
        result.items[0].diagnostics[0].message,
        "declaration uses sorry"
    );
    // And the goal should be found at the correct indented position
    assert_eq!(result.items[0].goals, vec!["|- True"]);
}

#[test]
fn parallel_no_timeout_works_normally() {
    let mut client = Mock::new("theorem foo : True := by\n  sorry")
    .with_goal(1, 6, Some(j(r##"{"goals": ["|- True"]}"##)));

    let snippets = vec!["simp".to_string()];
    let result = client.attempt("Main.lean", 2, &snippets, None, Some(true)).unwrap();

    assert_eq!(result.items.len(), 1);
    assert!(!result.items[0].timed_out, "should not be timed out");
    assert_eq!(result.items[0].goals, vec!["|- True"]);
    assert_eq!(result.items[0].snippet, "simp");
}

#[test]
fn run_one_snippet_warm_returns_goals() {
    let mut client = Mock::new("theorem foo : True := by\n  sorry").with_goal(
        1,
        6,
        Some(j(r##"{"goals": ["|- True"]}"##)),
    );

    let result = client.run(run_one_snippet_warm(
        "Main.lean",
        "theorem foo : True := by\n  sorry",
        2,
        2,
        "simp",
        None,
    ));

    assert_eq!(result.snippet, "simp");
    assert_eq!(result.goals, vec!["|- True"]);
    assert!(result.diagnostics.is_empty());
    assert!(!result.timed_out);
}

#[test]
fn run_one_snippet_warm_restores_content() {
    let original = "theorem foo : True := by\n  sorry";
    let mut client = Mock::new(original);

    let _ = client.run(run_one_snippet_warm("Main.lean", original, 2, 2, "simp", None));

    let restored = client.held();
    assert_eq!(restored, original, "original content must be restored");
}

#[test]
fn lsp_force_reopen_called() {
    let mut client = Mock::new("theorem foo : True := by\n  sorry");
    let snippets = vec!["simp".to_string()];
    let _ = client.attempt("Main.lean", 2, &snippets, None, None);
    assert_eq!(client.names().last().unwrap(), "ReopenFile");
}

#[test]
fn lsp_content_restored() {
    let original = "theorem foo : True := by\n  sorry";
    let mut client = Mock::new(original);
    let snippets = vec!["simp".to_string()];
    let _ = client.attempt("Main.lean", 2, &snippets, None, None);
    assert_eq!(client.held(), original);
}

#[test]
fn lsp_content_restored_when_a_snippet_fails() {
    let original = "theorem foo : True := by\n  sorry";
    let mut client = Mock::new(original);
    client.failing.push(("Goal", "server gone"));
    let snippets = vec!["simp".to_string(), "ring".to_string()];
    let err = client.attempt("Main.lean", 2, &snippets, None, None).unwrap_err();
    match err {
        LeanToolError::LspError { operation, message } => {
            assert_eq!(operation, "get_goal");
            assert_eq!(message, "server gone");
        }
        other => panic!("expected LspError, got: {other:?}"),
    }
    assert_eq!(client.held(), original);
    assert_eq!(client.names().last().unwrap(), "ReopenFile");
}

#[test]
fn parallel_temp_files_cleaned_up() {
    let mut client = Mock::new("theorem foo : True := by\n  sorry");
    let snippets = vec!["simp".to_string(), "ring".to_string()];
    client.attempt("Main.lean", 2, &snippets, None, Some(true)).unwrap();
    assert_eq!(client.paths("WriteFile").len(), 2);
    assert_eq!(client.paths("WriteFile"), client.paths("RemoveFile"));
}

#[test]
fn parallel_close_files_called() {
    let mut client = Mock::new("theorem foo : True := by\n  sorry");
    let snippets = vec!["simp".to_string(), "ring".to_string()];
    client.attempt("Main.lean", 2, &snippets, None, Some(true)).unwrap();
    let closed = client.paths("CloseFile");
    assert_eq!(closed.len(), 2, "close_files should be called for each snippet");
    for path in closed.iter() {
        assert!(
            path.starts_with(".lake/_mcp/_mcp_attempt_"),
            "closed path should be a temp file in .lake/_mcp/: {path}"
        );
    }
}

#[test]
fn parallel_temp_files_in_lake_mcp_dir() {
    let mut client = Mock::new("theorem foo : True := by\n  sorry");
    let snippets = vec!["simp".to_string()];
    client.attempt("Main.lean", 2, &snippets, None, Some(true)).unwrap();
    assert_eq!(client.paths("MakeDirectory"), vec![".lake/_mcp".to_string()]);
    for path in client.paths("WriteFile") {
        assert!(path.starts_with(".lake/_mcp/"), "written path should be in .lake/_mcp/: {path}");
    }
}

#[test]
fn regression_parallel_cold_file_open() {
    let mut client = Mock::new("theorem foo : True := by\n  sorry");
    let snippets = vec!["simp".to_string()];
    let result = client.attempt("Main.lean", 2, &snippets, None, Some(true)).unwrap();
    assert_eq!(result.items.len(), 1);
    assert_eq!(result.items[0].snippet, "simp");
    let opened = client.paths("OpenFile");
    assert_eq!(opened[0], "Main.lean");
    assert_eq!(client.names()[1], "FileContent");
}

#[test]
fn parallel_open_file_error_propagates() {
    let mut client = Mock::new("theorem foo : True := by\n  sorry");
    client.failing.push(("OpenFile", "Cannot open file"));
    let snippets = vec!["simp".to_string()];
    let err = client.attempt("Main.lean", 2, &snippets, None, Some(true)).unwrap_err();
    match err {
        LeanToolError::LspError { operation, message, .. } => {
            assert_eq!(operation, "open_file");
            assert!(
                message.contains("Cannot open file"),
                "error message should contain the original error: {message}"
            );
        }
        other => panic!("expected LspError with operation='open_file', got: {other:?}"),
    }
}

#[test]
fn parallel_timeout_returns_timed_out_result() {
    let mut client = Mock::new("theorem foo : True := by\n  sorry");
    client.late.push("Diagnostics");
    client.limit = Some("0.1".to_string());
    let snippets = vec!["exact?".to_string()];
    let result = client.attempt("Main.lean", 2, &snippets, None, Some(true)).unwrap();

    assert_eq!(result.items.len(), 1);
    assert!(result.items[0].timed_out, "snippet should be marked timed_out");
    assert!(result.items[0].goals.is_empty(), "timed out should have no goals");
    assert_eq!(result.items[0].diagnostics.len(), 1);
    assert_eq!(result.items[0].diagnostics[0].severity, "warning");
    assert_eq!(result.items[0].diagnostics[0].message, "Tactic timed out after 0.1s");
    assert_eq!(result.items[0].snippet, "exact?");
}

#[test]
fn parallel_timeout_cleans_up_temp_files() {
    let mut client = Mock::new("theorem foo : True := by\n  sorry");
    client.late.push("Diagnostics");
    client.limit = Some("0.1".to_string());
    let snippets = vec!["exact?".to_string(), "simp?".to_string()];
    client.attempt("Main.lean", 2, &snippets, None, Some(true)).unwrap();
    assert_eq!(client.paths("WriteFile"), client.paths("RemoveFile"));
    assert_eq!(
        client.paths("CloseFile").len(),
        2,
        "close_files should be called for each snippet even on timeout"
    );
}

#[test]
fn parallel_fast_snippet_completes_slow_times_out() {
    let mut fast = Mock::new("theorem foo : True := by\n  sorry")
        .with_goal(1, 6, Some(j(r##"{"goals": ["|- True"]}"##)));
    fast.limit = Some("1".to_string());
    let snippets = vec!["simp".to_string()];
    let result = fast.attempt("Main.lean", 2, &snippets, None, Some(true)).unwrap();
    assert_eq!(result.items.len(), 1);
    assert!(!result.items[0].timed_out, "fast snippet should complete");
    assert_eq!(result.items[0].goals, vec!["|- True"]);

    let mut slow = Mock::new("theorem foo : True := by\n  sorry");
    slow.late.push("Diagnostics");
    slow.limit = Some("0.1".to_string());
    let snippets = vec!["exact?".to_string()];
    let result = slow.attempt("Main.lean", 2, &snippets, None, Some(true)).unwrap();
    assert_eq!(result.items.len(), 1);
    assert!(result.items[0].timed_out, "slow snippet should time out");
    assert!(result.items[0].goals.is_empty());
}

#[test]
fn run_one_snippet_warm_timeout() {
    let original = "theorem foo : True := by\n  sorry";
    let mut client = Mock::new(original);
    client.late.push("Diagnostics");
    let result = client.run(run_one_snippet_warm(
        "Main.lean",
        original,
        2,
        2,
        "exact?",
        Some("0.1".to_string()),
    ));
    assert!(result.timed_out, "snippet should be marked timed_out");
    assert!(result.goals.is_empty());
    assert_eq!(result.diagnostics.len(), 1);
    assert_eq!(result.diagnostics[0].severity, "warning");
    assert!(result.diagnostics[0].message.contains("timed out"));
    assert_eq!(result.snippet, "exact?");
    assert_eq!(client.held(), original);
}

#[test]
fn run_one_snippet_warm_error_returns_diagnostic() {
    let original = "theorem foo : True := by\n  sorry";
    let mut client = Mock::new(original);
    client.failing.push(("UpdateFile", "refused"));
    let result = client.run(run_one_snippet_warm("Main.lean", original, 2, 2, "simp", None));
    assert_eq!(result.snippet, "simp");
    assert!(result.goals.is_empty());
    assert!(!result.diagnostics.is_empty());
    assert_eq!(result.diagnostics[0].severity, "error");
    assert!(
        result.diagnostics[0].message.contains("update_file"),
        "error message should mention the failing operation: {}",
        result.diagnostics[0].message
    );
    assert!(!result.timed_out);
}

#[test]
fn run_one_snippet_warm_restores_on_error() {
    let original = "theorem foo : True := by\n  sorry";
    let mut client = Mock::new(original);
    client.failing.push(("UpdateFile", "refused"));
    let _ = client.run(run_one_snippet_warm("Main.lean", original, 2, 2, "simp", None));
    assert_eq!(client.held(), original, "original content must be restored even on error");
}

#[test]
fn repl_runs_one_line_snippets() {
    let mut client = Mock::new("theorem foo : True := by\n  sorry");
    client.runs = 1;
    let snippets = vec!["simp".to_string(), "trivial".to_string()];
    let turn = handle_multi_attempt(true, "Main.lean", 2, snippets, None, None);
    let items = match client.run(turn).unwrap() {
        Attempts::Done(m) => m.items,
        Attempts::Parallel(_) => panic!("expected attempts"),
    };
    // One attempt for each snippet that was run.
    assert_eq!(items.len(), 1);
    assert_eq!(items[0].snippet, "simp");
    assert_eq!(items[0].goals, vec!["|- True"]);
    assert_eq!(items[0].diagnostics.len(), 2);
    assert_eq!(items[0].diagnostics[0].severity, "warning");
    assert_eq!(items[0].diagnostics[0].message, "unused");
    assert_eq!(items[0].diagnostics[0].line, 3);
    assert_eq!(items[0].diagnostics[1].severity, "error");
    assert_eq!(items[0].diagnostics[1].message, "boom");
    assert!(client.asked.contains(&Request::RunSnippets {
        base_code: "theorem foo : True := by".to_string(),
        snippets: vec!["simp".to_string(), "trivial".to_string()],
    }));
    assert!(!client.names().contains(&"UpdateFile".to_string()));
}

#[test]
fn snippets_that_do_not_fit_are_known_beforehand() {
    assert!(edit_fits("  sorry", 2, "simp", 2));
    assert!(!edit_fits("\u{2200} x", 1, "simp", 2));
    assert!(!edit_fits("  sorry", 2, "simp", 0));
}

#[test]
fn isolated_snippet_is_written_behind_the_code() {
    let mut client = Mock::new("");
    let result = client.run(run_snippet_isolated("simp\nring\n", "theorem a := by", "  ", None));
    assert_eq!(result.snippet, "simp\nring");
    let content = client
        .asked
        .iter()
        .find_map(|q| match q {
            Request::WriteFile { content, .. } => Some(content),
            _ => None,
        }).unwrap();
    assert_eq!(content, "theorem a := by\n  simp\n  ring\n  sorry");
}

#[test]
fn isolated_snippet_is_looked_at_where_it_stands() {
    let goal_of = |base_code: &str| {
        let mut client = Mock::new("");
        client.run(run_snippet_isolated("simp", base_code, "  ", None));
        client
            .asked
            .iter()
            .find_map(|q| match q {
                Request::Goal { line, column, .. } => Some((*line, *column)),
                _ => None,
            })
            .unwrap()
    };
    assert_eq!(goal_of("theorem foo : True := by\n"), (2, 6));
    assert_eq!(goal_of("theorem foo : True := by"), (1, 6));
    assert_eq!(goal_of(""), (0, 6));
}

#[test]
fn time_counts_while_the_language_server_works() {
    let mut turn = run_snippet_isolated("simp", "theorem a := by", "  ", Some("5".to_string()));
    let mut limited = vec![];
    let mut client = Mock::new("");
    while let Turn::Ask(q, call) = turn {
        if call.limited() {
            limited.push(Mock::name(&q));
        }
        let reply = client.reply(&q);
        client.asked.push(q);
        turn = call.resume(reply);
    }
    assert_eq!(limited, vec!["OpenFile", "Diagnostics", "Goal"]);
    assert_eq!(
        client.names(),
        vec![
            "MakeDirectory",
            "WriteFile",
            "OpenFile",
            "Diagnostics",
            "Goal",
            "CloseFile",
            "RemoveFile"
        ]
    );
}

#[test]
fn at_once_neither_column_nor_repl_matters() {
    let content = "theorem foo : True := by\n  sorry\n  done";
    let plan = |has_repl: bool, column: Option<u32>| {
        let mut client = Mock::new(content);
        let snippets = vec!["simp".to_string()];
        let turn = handle_multi_attempt(has_repl, "Main.lean", 2, snippets, column, Some(true));
        let outcome = client.run(turn).unwrap();
        (outcome, client.asked)
    };
    let expected = plan(false, None);
    assert_eq!(plan(true, None), expected);
    assert_eq!(plan(true, Some(3)), expected);
    assert_eq!(plan(false, Some(99)), expected);
}
