use lean_mcp_server::json::{parse_json, Json};
use lean_mcp_server::models::{BatchGoalEntry, BatchGoalPosition, BatchGoalResult};
use lean_mcp_server::protocol::{Call, Reply, Request, Turn};
use lean_mcp_server::tools::batch_goals::{
    assemble, handle_lean_goals_batch, query_place, unique_files,
};

/// A JSON value, from its text.
fn j(text: &str) -> Json {
    parse_json(text).unwrap()
}

/// Files with goals in them.
struct Files {
    files: Vec<(String, String)>,
    goals: Vec<((String, u32, u32), Vec<String>)>,
    broken: Vec<&'static str>,
    unreadable: Vec<&'static str>,
    asked: Vec<Request>,
}

impl Files {
    fn new() -> Files {
        Files { files: vec![], goals: vec![], broken: vec![], unreadable: vec![], asked: vec![] }
    }

    fn with_file(mut self, path: &str, content: &str) -> Files {
        self.files.push((path.to_string(), content.to_string()));
        self
    }

    /// The goals at a position (from 0).
    fn with_goal(mut self, path: &str, line: u32, column: u32, goals: Option<Json>) -> Files {
        let list = match &goals {
            Some(v) => match v.items_member("goals") {
                Some(items) => items.iter().map(|g| g.as_str().unwrap().to_string()).collect(),
                None => vec![],
            },
            None => vec![],
        };
        self.goals.push(((path.to_string(), line, column), list));
        self
    }

    fn open_count(&self) -> usize {
        self.asked.iter().filter(|q| matches!(q, Request::OpenFile { .. })).count()
    }

    fn reply(&self, q: &Request) -> Reply {
        match q {
            Request::OpenFile { path } if self.broken.contains(&path.as_str()) => {
                Reply::Failed("gone".to_string())
            }
            Request::FileContent { path } if self.unreadable.contains(&path.as_str()) => {
                Reply::Failed("closed".to_string())
            }
            Request::FileContent { path } => {
                Reply::Text(self.files.iter().find(|(p, _)| p == path).unwrap().1.clone())
            }
            Request::Goal { path, line, column } => {
                let place = (path.clone(), *line, *column);
                match self.goals.iter().find(|(p, _)| *p == place) {
                    Some((_, goals)) => Reply::Texts(goals.clone()),
                    None => Reply::Texts(vec![]),
                }
            }
            _ => Reply::Done,
        }
    }

    /// Plays a tool to its end.
    fn run<C: Call>(&mut self, turn: Turn<C, C::Out>) -> C::Out {
        let mut turn = turn;
        loop {
            match turn {
                Turn::Ask(q, call) => {
                    let reply = self.reply(&q);
                    self.asked.push(q);
                    assert!(call.accepts(&reply));
                    turn = call.resume(reply);
                }
                Turn::Done(outcome) => return outcome,
            }
        }
    }

    /// The goals at some positions, one after the other.
    fn goals_batch(&mut self, positions: Vec<BatchGoalPosition>) -> BatchGoalResult {
        let contents = self.run(handle_lean_goals_batch(&positions));
        let files = unique_files(&positions);
        let mut results = vec![];
        for p in &positions {
            results.push(self.run(query_place(p, &files, &contents)));
        }
        assemble(&positions, results)
    }
}

#[test]
fn batch_single_file_multiple_positions() {
    let mut client = Files::new()
        .with_file(
            "Main.lean",
            "import Mathlib\ntheorem foo : True := by\n  trivial",
        )
        .with_goal("Main.lean", 1, 0, Some(j(r##"{"goals": ["⊢ True"]}"##)))
        .with_goal("Main.lean", 2, 2, Some(j(r##"{"goals": []}"##)));

    let positions = vec![
        BatchGoalPosition {
            file_path: "Main.lean".into(),
            line: 2,
            column: Some(1),
        },
        BatchGoalPosition {
            file_path: "Main.lean".into(),
            line: 3,
            column: Some(3),
        },
    ];

    let result = client.goals_batch(positions);

    assert_eq!(result.items.len(), 2);
    // Both should succeed (possibly with empty goals).
    assert!(result.items[0].result.is_some());
    assert!(result.items[0].error.is_none());
    assert!(result.items[1].result.is_some());
    assert!(result.items[1].error.is_none());
}

#[test]
fn batch_deduplicates_file_opens() {
    let mut client = Files::new()
        .with_file("A.lean", "theorem a : True := by trivial")
        .with_file("B.lean", "theorem b : True := by trivial");

    let positions = vec![
        BatchGoalPosition {
            file_path: "A.lean".into(),
            line: 1,
            column: Some(1),
        },
        BatchGoalPosition {
            file_path: "A.lean".into(),
            line: 1,
            column: Some(5),
        },
        BatchGoalPosition {
            file_path: "B.lean".into(),
            line: 1,
            column: Some(1),
        },
    ];

    let result = client.goals_batch(positions);

    assert_eq!(result.items.len(), 3);
    // Should open only 2 unique files (A.lean and B.lean).
    assert_eq!(client.open_count(), 2);
}

#[test]
fn batch_partial_failure_on_bad_line() {
    let mut client = Files::new()
        .with_file("Main.lean", "line one\nline two")
        .with_goal("Main.lean", 0, 0, Some(j(r##"{"goals": ["⊢ True"]}"##)));

    let positions = vec![
        BatchGoalPosition {
            file_path: "Main.lean".into(),
            line: 1,
            column: Some(1),
        },
        BatchGoalPosition {
            file_path: "Main.lean".into(),
            line: 99,
            column: Some(1),
        },
    ];

    let result = client.goals_batch(positions);

    assert_eq!(result.items.len(), 2);
    // First should succeed.
    assert!(result.items[0].result.is_some());
    assert!(result.items[0].error.is_none());
    // Second should fail with line out of range.
    assert!(result.items[1].result.is_none());
    assert!(result.items[1].error.is_some());
    assert!(result.items[1]
        .error
        .as_ref()
        .unwrap()
        .contains("out of range"));
}

#[test]
fn batch_partial_failure_on_bad_column() {
    let mut client = Files::new().with_file("Main.lean", "short");

    let positions = vec![BatchGoalPosition {
        file_path: "Main.lean".into(),
        line: 1,
        column: Some(100),
    }];

    let result = client.goals_batch(positions);

    assert_eq!(result.items.len(), 1);
    assert!(result.items[0].result.is_none());
    assert!(result.items[0]
        .error
        .as_ref()
        .unwrap()
        .contains("Column 100 out of range"));
}

#[test]
fn batch_empty_positions() {
    let mut client = Files::new();

    let result = client.goals_batch(vec![]);

    assert!(result.items.is_empty());
}

#[test]
fn batch_without_column_returns_before_after() {
    // "  simp" has first non-ws at col 2 (0-indexed), trimmed end at col 6.
    let mut client = Files::new()
        .with_file("Main.lean", "theorem foo := by\n  simp\n  done")
        .with_goal("Main.lean", 1, 2, Some(j(r##"{"goals": ["⊢ 0 = 0"]}"##)))
        .with_goal("Main.lean", 1, 6, Some(j(r##"{"goals": []}"##)));

    let positions = vec![BatchGoalPosition {
        file_path: "Main.lean".into(),
        line: 2,
        column: None,
    }];

    let result = client.goals_batch(positions);

    assert_eq!(result.items.len(), 1);
    let entry = &result.items[0];
    assert!(entry.error.is_none());
    let gs = entry.result.as_ref().unwrap();
    assert_eq!(gs.line_context, "  simp");
    assert!(gs.goals.is_none());
    assert_eq!(gs.goals_before, Some(vec!["⊢ 0 = 0".to_string()]));
    assert_eq!(gs.goals_after, Some(vec![]));
}

#[test]
fn batch_with_column_returns_exact_goals() {
    let mut client = Files::new()
        .with_file("Main.lean", "import Mathlib\n  exact h")
        .with_goal(
            "Main.lean",
            1,
            2,
            Some(j(r##"{"goals": ["a : Nat\n⊢ a = a"]}"##)),
        );

    let positions = vec![BatchGoalPosition {
        file_path: "Main.lean".into(),
        line: 2,
        column: Some(3),
    }];

    let result = client.goals_batch(positions);

    assert_eq!(result.items.len(), 1);
    let gs = result.items[0].result.as_ref().unwrap();
    assert_eq!(gs.goals, Some(vec!["a : Nat\n⊢ a = a".to_string()]));
    assert!(gs.goals_before.is_none());
}

#[test]
fn batch_multiple_files() {
    let mut client = Files::new()
        .with_file("A.lean", "theorem a := by trivial")
        .with_file("B.lean", "theorem b := by trivial")
        .with_goal("A.lean", 0, 0, Some(j(r##"{"goals": ["⊢ True"]}"##)))
        .with_goal("B.lean", 0, 0, Some(j(r##"{"goals": ["⊢ False"]}"##)));

    let positions = vec![
        BatchGoalPosition {
            file_path: "A.lean".into(),
            line: 1,
            column: Some(1),
        },
        BatchGoalPosition {
            file_path: "B.lean".into(),
            line: 1,
            column: Some(1),
        },
    ];

    let result = client.goals_batch(positions);

    assert_eq!(result.items.len(), 2);
    assert!(result.items[0].result.is_some());
    assert!(result.items[1].result.is_some());
    assert_eq!(result.items[0].position.file_path, "A.lean");
    assert_eq!(result.items[1].position.file_path, "B.lean");
}

#[test]
fn batch_preserves_order() {
    let mut client = Files::new().with_file("Main.lean", "line1\nline2\nline3");

    let positions = vec![
        BatchGoalPosition {
            file_path: "Main.lean".into(),
            line: 3,
            column: Some(1),
        },
        BatchGoalPosition {
            file_path: "Main.lean".into(),
            line: 1,
            column: Some(1),
        },
        BatchGoalPosition {
            file_path: "Main.lean".into(),
            line: 2,
            column: Some(1),
        },
    ];

    let result = client.goals_batch(positions);

    assert_eq!(result.items[0].position.line, 3);
    assert_eq!(result.items[1].position.line, 1);
    assert_eq!(result.items[2].position.line, 2);
}

#[test]
fn batch_line_zero_returns_error() {
    let mut client = Files::new().with_file("Main.lean", "line one");

    let positions = vec![BatchGoalPosition {
        file_path: "Main.lean".into(),
        line: 0,
        column: Some(1),
    }];

    let result = client.goals_batch(positions);

    assert_eq!(result.items.len(), 1);
    assert!(result.items[0].error.is_some());
    assert!(result.items[0]
        .error
        .as_ref()
        .unwrap()
        .contains("Line 0 out of range"));
}

#[test]
fn batch_types_are_send_and_sync() {
    fn assert_send_sync<T: Send + Sync>() {}
    assert_send_sync::<BatchGoalPosition>();
    assert_send_sync::<BatchGoalEntry>();
    assert_send_sync::<BatchGoalResult>();
}

fn at(path: &str, line: u32, column: u32) -> BatchGoalPosition {
    BatchGoalPosition { file_path: path.into(), line, column: Some(column) }
}

#[test]
fn a_file_that_cannot_be_opened_fails_alone() {
    let both = || {
        Files::new()
            .with_file("A.lean", "theorem a : True := by\n  trivial")
            .with_file("B.lean", "theorem b : True := by\n  trivial")
            .with_goal("A.lean", 1, 2, Some(j(r##"{"goals": ["⊢ True"]}"##)))
            .with_goal("B.lean", 1, 2, Some(j(r##"{"goals": ["⊢ True"]}"##)))
    };
    let mut client = both();
    client.broken.push("B.lean");
    let result =
        client.goals_batch(vec![at("A.lean", 2, 3), at("B.lean", 2, 3), at("A.lean", 9, 1)]);
    let alone = both().goals_batch(vec![at("A.lean", 2, 3), at("A.lean", 9, 1)]);

    assert_eq!(result.items.len(), 3);
    assert_eq!(result.items[0], alone.items[0]);
    assert_eq!(result.items[2], alone.items[1]);
    assert_eq!(result.items[1].position, at("B.lean", 2, 3));
    assert_eq!(result.items[1].result, None);
    assert_eq!(result.items[1].error, Some("LSP error: gone".to_string()));
    assert_eq!(client.open_count(), 2);
    assert!(!client.asked.contains(&Request::FileContent { path: "B.lean".to_string() }));
}

#[test]
fn a_file_that_cannot_be_read_fails_alone() {
    let mut client = Files::new()
        .with_file("A.lean", "theorem a : True := by\n  trivial")
        .with_file("B.lean", "theorem b : True := by\n  trivial")
        .with_goal("B.lean", 1, 2, Some(j(r##"{"goals": ["⊢ True"]}"##)));
    client.unreadable.push("A.lean");
    let result = client.goals_batch(vec![at("A.lean", 2, 3), at("B.lean", 2, 3)]);
    assert_eq!(result.items[0].result, None);
    assert_eq!(result.items[0].error, Some("LSP error: closed".to_string()));
    assert!(result.items[1].result.is_some());
    assert_eq!(result.items[1].error, None);
}
