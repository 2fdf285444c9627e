#![allow(dead_code)]

use lean_mcp_server::json::{parse_json, Json};
use lean_mcp_server::models::GoalDiffResult;
use lean_mcp_server::protocol::{Call, Reply, Request, Turn};
use lean_mcp_server::tools::outline::handle_file_outline;

/// A JSON value, from its text.
fn j(text: &str) -> Json {
    parse_json(text).unwrap()
}

/// A stand-in for all that a tool may ask for.
struct Mock {
    content: String,
    goals: Vec<((u32, u32), Vec<String>)>,
    term_goals: Vec<((u32, u32), Json)>,
    hover: Option<Json>,
    diagnostics: Json,
    interactive: Vec<Json>,
    symbols: Vec<Json>,
    completions: Vec<Json>,
    declarations: Vec<((u32, u32), Vec<Json>)>,
    references: Vec<Json>,
    actions: Vec<Json>,
    resolved: Json,
    widgets: Vec<Json>,
    widget_source: Json,
    files: Vec<(String, String)>,
    failing: Vec<(&'static str, &'static str)>,
    asked: Vec<Request>,
}

fn copies(values: &[Json]) -> Vec<Json> {
    values.iter().map(|v| v.duplicate()).collect()
}

impl Mock {
    fn new(content: &str) -> Mock {
        Mock {
            content: content.to_string(),
            goals: vec![],
            term_goals: vec![],
            hover: None,
            diagnostics: j(r#"{"diagnostics": [], "success": true}"#),
            interactive: vec![],
            symbols: vec![],
            completions: vec![],
            declarations: vec![],
            references: vec![],
            actions: vec![],
            resolved: j("{}"),
            widgets: vec![],
            widget_source: j("{}"),
            files: vec![],
            failing: vec![],
            asked: vec![],
        }
    }

    /// The goals at a position (from 0).
    fn with_goal(mut self, line: u32, column: u32, goals: Option<Json>) -> Mock {
        let list = match &goals {
            Some(v) => match v.items_member("goals") {
                Some(items) => items.iter().map(|g| g.as_str().unwrap().to_string()).collect(),
                None => vec![],
            },
            None => vec![],
        };
        self.goals.push(((line, column), list));
        self
    }

    /// The name of a request.
    fn name(q: &Request) -> String {
        let shown = format!("{q:?}");
        shown.split([' ', '{']).next().unwrap().to_string()
    }

    /// The names of all requests so far.
    fn names(&self) -> Vec<String> {
        self.asked.iter().map(Mock::name).collect()
    }

    fn reply(&self, q: &Request) -> Reply {
        for (name, message) in &self.failing {
            if Mock::name(q) == *name {
                return Reply::Failed(message.to_string());
            }
        }
        match q {
            Request::FileContent { .. } => Reply::Text(self.content.clone()),
            Request::Goal { line, column, .. } => {
                for ((l, c), goals) in &self.goals {
                    if l == line && c == column {
                        return Reply::Texts(goals.clone());
                    }
                }
                Reply::Texts(vec![])
            }
            Request::TermGoal { line, column, .. } => {
                for ((l, c), v) in &self.term_goals {
                    if l == line && c == column {
                        return Reply::MaybeValue(Some(v.duplicate()));
                    }
                }
                Reply::MaybeValue(None)
            }
            Request::Hover { .. } => Reply::MaybeValue(self.hover.as_ref().map(|v| v.duplicate())),
            Request::Diagnostics { .. } => Reply::Value(self.diagnostics.duplicate()),
            Request::InteractiveDiagnostics { .. } => Reply::Values(copies(&self.interactive)),
            Request::Symbols { .. } => Reply::Values(copies(&self.symbols)),
            Request::Completions { .. } => Reply::Values(copies(&self.completions)),
            Request::Declarations { line, column, .. } => {
                for ((l, c), found) in &self.declarations {
                    if l == line && c == column {
                        return Reply::Values(copies(found));
                    }
                }
                Reply::Values(vec![])
            }
            Request::References { .. } => Reply::Values(copies(&self.references)),
            Request::CodeActions { .. } => Reply::Values(copies(&self.actions)),
            Request::ResolveAction { .. } => Reply::Value(self.resolved.duplicate()),
            Request::Widgets { .. } => Reply::Values(copies(&self.widgets)),
            Request::WidgetSource { .. } => Reply::Value(self.widget_source.duplicate()),
            Request::ReadFile { path } => match self.files.iter().find(|(p, _)| p == path) {
                Some((_, content)) => Reply::Text(content.clone()),
                None => Reply::Failed("No such file or directory (os error 2)".to_string()),
            },
            Request::FindSymbol { content, symbol } => {
                for (i, line) in content.lines().enumerate() {
                    if let Some(column) = line.find(symbol.as_str()) {
                        return Reply::Position(Some((i, column)));
                    }
                }
                Reply::Position(None)
            }
            Request::UriPaths { uris } => Reply::Names(
                uris.iter().map(|u| u.strip_prefix("file://").map(|p| p.to_string())).collect(),
            ),
            Request::KindNames { kinds } => Reply::Names(
                kinds
                    .iter()
                    .map(|k| match k {
                        Some(3) => Some("Function".to_string()),
                        Some(6) => Some("Variable".to_string()),
                        Some(21) => Some("Constant".to_string()),
                        _ => None,
                    })
                    .collect(),
            ),
            Request::SeverityNames { severities } => Reply::Texts(
                severities
                    .iter()
                    .map(|s| match s {
                        1 => "error".to_string(),
                        2 => "warning".to_string(),
                        3 => "info".to_string(),
                        4 => "hint".to_string(),
                        n => format!("unknown({n})"),
                    })
                    .collect(),
            ),
            Request::DiffGoals { before, after } => Reply::Diff(GoalDiffResult {
                goals_added: after.clone(),
                goals_removed: before.clone(),
                hypotheses_added: vec![],
                hypotheses_removed: vec![],
                changed: before != after,
            }),
            Request::ErrorText { error } => Reply::Text(format!("{error:?}")),
            _ => Reply::Done,
        }
    }

    /// Plays a tool to its end.
    fn run<C: Call>(&mut self, turn: Turn<C, C::Out>) -> C::Out {
        let mut turn = turn;
        loop {
            match turn {
                Turn::Ask(q, call) => {
                    let reply = self.reply(&q);
                    self.asked.push(q);
                    assert!(call.accepts(&reply));
                    turn = call.resume(reply);
                }
                Turn::Done(outcome) => return outcome,
            }
        }
    }
}

impl Mock {
    fn with_content(mut self, content: &str) -> Mock {
        self.content = content.to_string();
        self
    }

    fn with_symbols(mut self, symbols: Vec<Json>) -> Mock {
        self.symbols = symbols;
        self
    }
}

#[test]
fn outline_with_imports() {
    let content = "import Mathlib.Tactic\nimport Init\n\ndef foo := 42\n";
    let symbols = vec![j(
        r##"{
            "name": "foo",
            "kind": 12,
            "range": {
                "start": {"line": 3, "character": 0},
                "end": {"line": 3, "character": 14}
            }
        }"##,
    )];

    let mut client = Mock::new("")
        .with_content(content)
        .with_symbols(symbols);

    let result = client.run(handle_file_outline("Main.lean", None)).unwrap();

    assert_eq!(result.imports.len(), 2);
    assert_eq!(result.imports[0], "import Mathlib.Tactic");
    assert_eq!(result.imports[1], "import Init");
    assert_eq!(result.declarations.len(), 1);
    assert_eq!(result.declarations[0].name, "foo");
    assert_eq!(result.declarations[0].kind, "Def");
    assert!(result.total_declarations.is_none());
}

#[test]
fn outline_with_nested_namespaces() {
    let content = "namespace Outer\nnamespace Inner\ndef foo := 42\nend Inner\nend Outer\n";
    let symbols = vec![j(
        r##"{
            "name": "Outer",
            "kind": 2,
            "range": {
                "start": {"line": 0, "character": 0},
                "end": {"line": 4, "character": 10}
            },
            "children": [
                {
                    "name": "Inner",
                    "kind": 2,
                    "range": {
                        "start": {"line": 1, "character": 0},
                        "end": {"line": 3, "character": 9}
                    },
                    "children": [
                        {
                            "name": "foo",
                            "kind": 12,
                            "range": {
                                "start": {"line": 2, "character": 0},
                                "end": {"line": 2, "character": 14}
                            }
                        }
                    ]
                }
            ]
        }"##,
    )];

    let mut client = Mock::new("")
        .with_content(content)
        .with_symbols(symbols);

    let result = client.run(handle_file_outline("Main.lean", None)).unwrap();

    assert_eq!(result.declarations.len(), 1);
    let outer = &result.declarations[0];
    assert_eq!(outer.name, "Outer");
    assert_eq!(outer.kind, "Ns");
    assert_eq!(outer.children.len(), 1);

    let inner = &outer.children[0];
    assert_eq!(inner.name, "Inner");
    assert_eq!(inner.kind, "Ns");
    assert_eq!(inner.children.len(), 1);

    let foo = &inner.children[0];
    assert_eq!(foo.name, "foo");
    assert_eq!(foo.kind, "Def");
}

#[test]
fn outline_empty_file() {
    let mut client = Mock::new("")
        .with_content("")
        .with_symbols(vec![]);

    let result = client.run(handle_file_outline("Empty.lean", None)).unwrap();

    assert!(result.imports.is_empty());
    assert!(result.declarations.is_empty());
    assert!(result.total_declarations.is_none());
}

#[test]
fn outline_max_declarations_truncation() {
    let content = "def a := 1\ndef b := 2\ndef c := 3\n";
    let symbols = vec![
        j(
            r##"{
                "name": "a",
                "kind": 12,
                "range": {
                    "start": {"line": 0, "character": 0},
                    "end": {"line": 0, "character": 10}
                }
            }"##,
        ),
        j(
            r##"{
                "name": "b",
                "kind": 12,
                "range": {
                    "start": {"line": 1, "character": 0},
                    "end": {"line": 1, "character": 10}
                }
            }"##,
        ),
        j(
            r##"{
                "name": "c",
                "kind": 12,
                "range": {
                    "start": {"line": 2, "character": 0},
                    "end": {"line": 2, "character": 10}
                }
            }"##,
        ),
    ];

    let mut client = Mock::new("")
        .with_content(content)
        .with_symbols(symbols);

    let result = client.run(handle_file_outline("Main.lean", Some(2))).unwrap();

    assert_eq!(result.declarations.len(), 2);
    assert_eq!(result.declarations[0].name, "a");
    assert_eq!(result.declarations[1].name, "b");
    assert_eq!(result.total_declarations, Some(3));
}

#[test]
fn outline_max_declarations_no_truncation_when_within_limit() {
    let content = "def a := 1\n";
    let symbols = vec![j(
        r##"{
            "name": "a",
            "kind": 12,
            "range": {
                "start": {"line": 0, "character": 0},
                "end": {"line": 0, "character": 10}
            }
        }"##,
    )];

    let mut client = Mock::new("")
        .with_content(content)
        .with_symbols(symbols);

    let result = client.run(handle_file_outline("Main.lean", Some(10))).unwrap();

    assert_eq!(result.declarations.len(), 1);
    assert!(result.total_declarations.is_none());
}

#[test]
fn outline_tag_detection_theorem() {
    let content = "theorem add_comm (a b : Nat) : a + b = b + a := sorry\n";
    let symbols = vec![j(
        r##"{
            "name": "add_comm",
            "kind": 12,
            "detail": "theorem add_comm : a + b = b + a",
            "range": {
                "start": {"line": 0, "character": 0},
                "end": {"line": 0, "character": 53}
            }
        }"##,
    )];

    let mut client = Mock::new("")
        .with_content(content)
        .with_symbols(symbols);

    let result = client.run(handle_file_outline("Main.lean", None)).unwrap();

    assert_eq!(result.declarations.len(), 1);
    assert_eq!(result.declarations[0].kind, "Thm");
    assert_eq!(result.declarations[0].name, "add_comm");
}

#[test]
fn outline_tag_detection_def() {
    let content = "def myFunc (n : Nat) : Nat := n + 1\n";
    let symbols = vec![j(
        r##"{
            "name": "myFunc",
            "kind": 12,
            "range": {
                "start": {"line": 0, "character": 0},
                "end": {"line": 0, "character": 36}
            }
        }"##,
    )];

    let mut client = Mock::new("")
        .with_content(content)
        .with_symbols(symbols);

    let result = client.run(handle_file_outline("Main.lean", None)).unwrap();

    assert_eq!(result.declarations[0].kind, "Def");
}

#[test]
fn outline_tag_detection_namespace() {
    let content = "namespace Foo\nend Foo\n";
    let symbols = vec![j(
        r##"{
            "name": "Foo",
            "kind": 2,
            "range": {
                "start": {"line": 0, "character": 0},
                "end": {"line": 1, "character": 7}
            }
        }"##,
    )];

    let mut client = Mock::new("")
        .with_content(content)
        .with_symbols(symbols);

    let result = client.run(handle_file_outline("Main.lean", None)).unwrap();

    assert_eq!(result.declarations[0].kind, "Ns");
}

#[test]
fn outline_tag_detection_example() {
    let content = "example : True := trivial\n";
    let symbols = vec![j(
        r##"{
            "name": "example",
            "kind": 12,
            "range": {
                "start": {"line": 0, "character": 0},
                "end": {"line": 0, "character": 25}
            }
        }"##,
    )];

    let mut client = Mock::new("")
        .with_content(content)
        .with_symbols(symbols);

    let result = client.run(handle_file_outline("Main.lean", None)).unwrap();

    assert_eq!(result.declarations[0].kind, "Ex");
}
