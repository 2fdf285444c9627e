#![allow(dead_code)]

use lean_mcp_server::json::{parse_json, Json};
use lean_mcp_server::models::GoalDiffResult;
use lean_mcp_server::protocol::{Call, Reply, Request, Turn};
use lean_mcp_server::tools::completions::handle_lean_completions;

/// A JSON value, from its text.
fn j(text: &str) -> Json {
    parse_json(text).unwrap()
}

/// A stand-in for all that a tool may ask for.
struct Mock {
    content: String,
    goals: Vec<((u32, u32), Vec<String>)>,
    term_goals: Vec<((u32, u32), Json)>,
    hover: Option<Json>,
    diagnostics: Json,
    interactive: Vec<Json>,
    symbols: Vec<Json>,
    completions: Vec<Json>,
    declarations: Vec<((u32, u32), Vec<Json>)>,
    references: Vec<Json>,
    actions: Vec<Json>,
    resolved: Json,
    widgets: Vec<Json>,
    widget_source: Json,
    files: Vec<(String, String)>,
    failing: Vec<(&'static str, &'static str)>,
    asked: Vec<Request>,
}

fn copies(values: &[Json]) -> Vec<Json> {
    values.iter().map(|v| v.duplicate()).collect()
}

impl Mock {
    fn new(content: &str) -> Mock {
        Mock {
            content: content.to_string(),
            goals: vec![],
            term_goals: vec![],
            hover: None,
            diagnostics: j(r#"{"diagnostics": [], "success": true}"#),
            interactive: vec![],
            symbols: vec![],
            completions: vec![],
            declarations: vec![],
            references: vec![],
            actions: vec![],
            resolved: j("{}"),
            widgets: vec![],
            widget_source: j("{}"),
            files: vec![],
            failing: vec![],
            asked: vec![],
        }
    }

    /// The goals at a position (from 0).
    fn with_goal(mut self, line: u32, column: u32, goals: Option<Json>) -> Mock {
        let list = match &goals {
            Some(v) => match v.items_member("goals") {
                Some(items) => items.iter().map(|g| g.as_str().unwrap().to_string()).collect(),
                None => vec![],
            },
            None => vec![],
        };
        self.goals.push(((line, column), list));
        self
    }

    /// The name of a request.
    fn name(q: &Request) -> String {
        let shown = format!("{q:?}");
        shown.split([' ', '{']).next().unwrap().to_string()
    }

    /// The names of all requests so far.
    fn names(&self) -> Vec<String> {
        self.asked.iter().map(Mock::name).collect()
    }

    fn reply(&self, q: &Request) -> Reply {
        for (name, message) in &self.failing {
            if Mock::name(q) == *name {
                return Reply::Failed(message.to_string());
            }
        }
        match q {
            Request::FileContent { .. } => Reply::Text(self.content.clone()),
            Request::Goal { line, column, .. } => {
                for ((l, c), goals) in &self.goals {
                    if l == line && c == column {
                        return Reply::Texts(goals.clone());
                    }
                }
                Reply::Texts(vec![])
            }
            Request::TermGoal { line, column, .. } => {
                for ((l, c), v) in &self.term_goals {
                    if l == line && c == column {
                        return Reply::MaybeValue(Some(v.duplicate()));
                    }
                }
                Reply::MaybeValue(None)
            }
            Request::Hover { .. } => Reply::MaybeValue(self.hover.as_ref().map(|v| v.duplicate())),
            Request::Diagnostics { .. } => Reply::Value(self.diagnostics.duplicate()),
            Request::InteractiveDiagnostics { .. } => Reply::Values(copies(&self.interactive)),
            Request::Symbols { .. } => Reply::Values(copies(&self.symbols)),
            Request::Completions { .. } => Reply::Values(copies(&self.completions)),
            Request::Declarations { line, column, .. } => {
                for ((l, c), found) in &self.declarations {
                    if l == line && c == column {
                        return Reply::Values(copies(found));
                    }
                }
                Reply::Values(vec![])
            }
            Request::References { .. } => Reply::Values(copies(&self.references)),
            Request::CodeActions { .. } => Reply::Values(copies(&self.actions)),
            Request::ResolveAction { .. } => Reply::Value(self.resolved.duplicate()),
            Request::Widgets { .. } => Reply::Values(copies(&self.widgets)),
            Request::WidgetSource { .. } => Reply::Value(self.widget_source.duplicate()),
            Request::ReadFile { path } => match self.files.iter().find(|(p, _)| p == path) {
                Some((_, content)) => Reply::Text(content.clone()),
                None => Reply::Failed("No such file or directory (os error 2)".to_string()),
            },
            Request::FindSymbol { content, symbol } => {
                for (i, line) in content.lines().enumerate() {
                    if let Some(column) = line.find(symbol.as_str()) {
                        return Reply::Position(Some((i, column)));
                    }
                }
                Reply::Position(None)
            }
            Request::UriPaths { uris } => Reply::Names(
                uris.iter().map(|u| u.strip_prefix("file://").map(|p| p.to_string())).collect(),
            ),
            Request::KindNames { kinds } => Reply::Names(
                kinds
                    .iter()
                    .map(|k| match k {
                        Some(3) => Some("Function".to_string()),
                        Some(6) => Some("Variable".to_string()),
                        Some(21) => Some("Constant".to_string()),
                        _ => None,
                    })
                    .collect(),
            ),
            Request::SeverityNames { severities } => Reply::Texts(
                severities
                    .iter()
                    .map(|s| match s {
                        1 => "error".to_string(),
                        2 => "warning".to_string(),
                        3 => "info".to_string(),
                        4 => "hint".to_string(),
                        n => format!("unknown({n})"),
                    })
                    .collect(),
            ),
            Request::DiffGoals { before, after } => Reply::Diff(GoalDiffResult {
                goals_added: after.clone(),
                goals_removed: before.clone(),
                hypotheses_added: vec![],
                hypotheses_removed: vec![],
                changed: before != after,
            }),
            Request::ErrorText { error } => Reply::Text(format!("{error:?}")),
            _ => Reply::Done,
        }
    }

    /// Plays a tool to its end.
    fn run<C: Call>(&mut self, turn: Turn<C, C::Out>) -> C::Out {
        let mut turn = turn;
        loop {
            match turn {
                Turn::Ask(q, call) => {
                    let reply = self.reply(&q);
                    self.asked.push(q);
                    assert!(call.accepts(&reply));
                    turn = call.resume(reply);
                }
                Turn::Done(outcome) => return outcome,
            }
        }
    }
}

#[test]
fn completions_returns_sorted_items() {
    let mut client = Mock {
        content: "def Na".into(),
        completions: vec![
            j(r##"{"label": "Nat.succ", "kind": 3}"##),
            j(r##"{"label": "Nat.add", "kind": 3}"##),
            j(r##"{"label": "Nat.zero", "kind": 21}"##),
        ],
        ..Mock::new("")
    };

    let result = client.run(handle_lean_completions("Main.lean", 1, 7, 32)).unwrap();
    assert_eq!(result.items.len(), 3);
    // All start with "na" so sorted alphabetically among prefix matches.
    assert_eq!(result.items[0].label, "Nat.add");
    assert_eq!(result.items[1].label, "Nat.succ");
    assert_eq!(result.items[2].label, "Nat.zero");
}

#[test]
fn completions_maps_kind_integers_to_strings() {
    let mut client = Mock {
        content: "x".into(),
        completions: vec![
            j(r##"{"label": "foo", "kind": 3}"##),
            j(r##"{"label": "bar", "kind": 6}"##),
            j(r##"{"label": "baz"}"##),
        ],
        ..Mock::new("")
    };

    let result = client.run(handle_lean_completions("Main.lean", 1, 2, 32)).unwrap();
    let kinds: Vec<Option<&str>> = result.items.iter().map(|i| i.kind.as_deref()).collect();
    assert!(kinds.contains(&Some("Function")));
    assert!(kinds.contains(&Some("Variable")));
    assert!(kinds.contains(&None));
}

#[test]
fn completions_prefix_sorting() {
    let mut client = Mock {
        content: "def fo".into(),
        completions: vec![
            j(r##"{"label": "zz_unrelated"}"##),
            j(r##"{"label": "infoof"}"##),
            j(r##"{"label": "fooBar"}"##),
            j(r##"{"label": "foo"}"##),
        ],
        ..Mock::new("")
    };

    let result = client.run(handle_lean_completions("Main.lean", 1, 7, 32)).unwrap();
    // prefix = "fo"
    // "foo" and "fooBar" start with "fo" -> group 0
    // "infoof" contains "fo" -> group 1
    // "zz_unrelated" -> group 2
    assert_eq!(result.items[0].label, "foo");
    assert_eq!(result.items[1].label, "fooBar");
    assert_eq!(result.items[2].label, "infoof");
    assert_eq!(result.items[3].label, "zz_unrelated");
}

#[test]
fn completions_with_dot_trigger() {
    let mut client = Mock {
        content: "Nat.".into(),
        completions: vec![
            j(r##"{"label": "succ", "kind": 3}"##),
            j(r##"{"label": "add", "kind": 3}"##),
        ],
        ..Mock::new("")
    };

    let result = client.run(handle_lean_completions("Main.lean", 1, 5, 32)).unwrap();
    // prefix is empty (dot trigger), so alphabetical order.
    assert_eq!(result.items[0].label, "add");
    assert_eq!(result.items[1].label, "succ");
}

#[test]
fn completions_empty_returns_empty() {
    let mut client = Mock {
        content: "x".into(),
        completions: vec![],
        ..Mock::new("")
    };

    let result = client.run(handle_lean_completions("Main.lean", 1, 2, 32)).unwrap();
    assert!(result.items.is_empty());
}

#[test]
fn completions_skips_items_without_label() {
    let mut client = Mock {
        content: "x".into(),
        completions: vec![
            j(r##"{"kind": 3}"##),                   // no label -> skipped
            j(r##"{"label": "valid", "kind": 3}"##), // has label -> kept
            j(r##"{"label": 42}"##),                 // label not a string -> skipped
        ],
        ..Mock::new("")
    };

    let result = client.run(handle_lean_completions("Main.lean", 1, 2, 32)).unwrap();
    assert_eq!(result.items.len(), 1);
    assert_eq!(result.items[0].label, "valid");
}

#[test]
fn completions_respects_max_limit() {
    let mut client = Mock {
        content: "x".into(),
        completions: (0..50).map(|i| j(&format!(r##"{{"label": "item{i:02}"}}"##))).collect(),
        ..Mock::new("")
    };

    let result = client.run(handle_lean_completions("Main.lean", 1, 2, 5)).unwrap();
    assert_eq!(result.items.len(), 5);
}
