use lean_mcp_server::json::{parse_json, Json};
use lean_mcp_server::protocol::{Call, Reply, Request, Turn, WebReply};
use lean_mcp_server::server::{
    find_batch_place, resolve_project_path, serve, task_result, BuildParams, ClientTable,
    GoalParams, LocalSearchParams, LoogleParams, TaskResultParams,
};
use lean_mcp_server::tools::search::SearchConfig;
use lean_mcp_server::tools::toolbox::{Settings, ToolCall, ToolOutcome};

/// A JSON value, from its text.
fn j(text: &str) -> Json {
    parse_json(text).unwrap()
}

/// Projects and tasks as a server knows them.
struct World {
    projects: Vec<(&'static str, &'static str)>,
    cwd: Option<&'static str>,
    no_server: Option<&'static str>,
    tasks: Vec<(&'static str, &'static str)>,
    asked: Vec<Request>,
}

impl World {
    fn new() -> World {
        World { projects: vec![], cwd: None, no_server: None, tasks: vec![], asked: vec![] }
    }

    fn reply(&self, q: &Request) -> Reply {
        match q {
            Request::DetectProject { from: Some(path) } => Reply::MaybeText(
                self.projects.iter().find(|(p, _)| path.starts_with(p)).map(|(_, r)| r.to_string()),
            ),
            Request::DetectProject { from: None } => {
                Reply::MaybeText(self.cwd.map(|p| p.to_string()))
            }
            Request::EnterProject { client: true, .. } => match self.no_server {
                Some(why) => Reply::Failed(why.to_string()),
                None => Reply::Done,
            },
            Request::FileContent { .. } => Reply::Text("theorem foo := by\n  simp".to_string()),
            Request::Symbols { .. } => Reply::Values(vec![j(
                r#"{
                    "name": "foo",
                    "kind": 12,
                    "range": {"start": {"line": 0, "character": 0},
                              "end": {"line": 1, "character": 6}},
                    "selectionRange": {"start": {"line": 0, "character": 8},
                                       "end": {"line": 0, "character": 11}}
                }"#,
            )]),
            Request::Goal { .. } => Reply::Texts(vec!["|- True".to_string()]),
            Request::GetJson { .. } => Reply::Web(WebReply::Answer(
                serde_json::from_str(r#"{"hits": []}"#).unwrap(),
            )),
            Request::LocalSearch { .. } => Reply::Value(j(r#"[{"name": "foo"}]"#)),
            Request::CancelTask { task_id } => {
                Reply::Flag(self.tasks.iter().any(|(t, _)| t == task_id))
            }
            Request::TaskSnapshot { task_id } => Reply::MaybeValue(
                self.tasks.iter().find(|(t, _)| t == task_id).map(|(_, v)| j(v)),
            ),
            Request::ErrorText { error } => Reply::Text(format!("told: {error:?}")),
            _ => Reply::Done,
        }
    }

    /// Plays a call to its end.
    fn run<C: Call>(&mut self, turn: Turn<C, C::Out>) -> C::Out {
        let mut turn = turn;
        loop {
            match turn {
                Turn::Ask(q, call) => {
                    let reply = self.reply(&q);
                    self.asked.push(q);
                    assert!(call.accepts(&reply));
                    turn = call.resume(reply);
                }
                Turn::Done(outcome) => return outcome,
            }
        }
    }
}

fn settings() -> Settings {
    Settings::for_one_call(SearchConfig::with_settings(None, None, None, None, None), None, 1)
}

fn goal_call(path: &str, line: u32, declaration_name: Option<&str>) -> ToolCall {
    ToolCall::Goal(GoalParams {
        file_path: path.to_string(),
        line,
        column: Some(3),
        declaration_name: declaration_name.map(|d| d.to_string()),
    })
}

#[test]
fn resolve_project_path_explicit_takes_precedence() {
    let mut world = World::new();
    world.projects.push(("/tmp/project", "/tmp/project"));
    // Even with a file in a real project, the explicit path wins
    let result =
        world.run(resolve_project_path(Some("/explicit/path"), Some("/tmp/project/Foo.lean")));
    assert_eq!(result, Ok("/explicit/path".to_string()));
    assert!(world.asked.is_empty());
}

#[test]
fn resolve_project_path_detects_from_file_path() {
    let mut world = World::new();
    world.projects.push(("/tmp/project", "/tmp/project"));
    let result = world.run(resolve_project_path(None, Some("/tmp/project/src/Foo.lean")));
    assert_eq!(result, Ok("/tmp/project".to_string()));
}

#[test]
fn resolve_project_path_detects_from_cwd() {
    let mut world = World::new();
    world.cwd = Some("/home/project");
    let result = world.run(resolve_project_path(None, None));
    assert_eq!(result, Ok("/home/project".to_string()));
    let result = world.run(resolve_project_path(None, Some("/elsewhere/Foo.lean")));
    assert_eq!(result, Ok("/home/project".to_string()));
}

#[test]
fn resolve_project_path_error_when_nothing_found() {
    let mut world = World::new();
    let result = world.run(resolve_project_path(None, Some("/tmp/Foo.lean")));
    assert!(result.is_err());
    assert!(result.unwrap_err().contains("auto-detection failed"));
}

#[test]
fn task_result_not_found() {
    let mut world = World::new();
    let result = world.run(task_result(TaskResultParams {
        task_id: "nonexistent-id".to_string(),
        cancel: None,
    }));
    assert_eq!(result, Err("Task 'nonexistent-id' not found or expired".to_string()));
    assert_eq!(world.asked[0], Request::ForgetTasks);
}

#[test]
fn task_result_returns_snapshot() {
    let mut world = World::new();
    world.tasks.push(("t", r#"{"task_id": "t", "total": 3}"#));
    let result =
        world.run(task_result(TaskResultParams { task_id: "t".to_string(), cancel: Some(false) }));
    assert_eq!(result, Ok(j(r#"{"task_id": "t", "total": 3}"#)));
}

#[test]
fn task_result_cancel() {
    let mut world = World::new();
    world.tasks.push(("t", r#"{"status": "cancelled"}"#));
    let result =
        world.run(task_result(TaskResultParams { task_id: "t".to_string(), cancel: Some(true) }));
    assert_eq!(result, Ok(j(r#"{"status": "cancelled"}"#)));
    assert_eq!(world.asked[0], Request::CancelTask { task_id: "t".to_string() });
    assert!(!world.asked.contains(&Request::ForgetTasks));
}

#[test]
fn task_result_cancel_unknown_task() {
    let mut world = World::new();
    let result = world.run(task_result(TaskResultParams {
        task_id: "does-not-exist".to_string(),
        cancel: Some(true),
    }));
    assert_eq!(result, Err("Task 'does-not-exist' not found".to_string()));
    assert_eq!(world.asked.len(), 1);
}

#[test]
fn serving_enters_the_project_first() {
    let mut world = World::new();
    world.projects.push(("/p", "/p"));
    let result = world.run(serve(goal_call("/p/A.lean", 2, None), None, settings())).unwrap();
    match result {
        ToolOutcome::Goal(state) => {
            assert_eq!(state.line_context, "  simp");
            assert_eq!(state.goals, Some(vec!["|- True".to_string()]));
        }
        other => panic!("expected goals, got: {other:?}"),
    }
    assert_eq!(
        world.asked[1],
        Request::EnterProject { project: "/p".to_string(), client: true }
    );
}

#[test]
fn serving_takes_the_line_from_the_declaration() {
    let mut world = World::new();
    let turn = serve(goal_call("A.lean", 99, Some("foo")), Some("/p"), settings());
    match world.run(turn).unwrap() {
        ToolOutcome::Goal(state) => assert_eq!(state.line_context, "theorem foo := by"),
        other => panic!("expected goals, got: {other:?}"),
    }
}

#[test]
fn serving_without_a_project_tells_so() {
    let mut world = World::new();
    let turn = serve(
        ToolCall::Build(BuildParams { clean: None, output_lines: None }),
        None,
        settings(),
    );
    let err = world.run(turn).unwrap_err();
    assert!(err.contains("auto-detection failed"), "got: {err}");
    assert!(!world.asked.iter().any(|q| matches!(q, Request::RunCommand { .. })));
}

#[test]
fn serving_without_a_language_server_tells_so() {
    let mut world = World::new();
    world.no_server = Some("lake not found");
    let err = world.run(serve(goal_call("A.lean", 2, None), Some("/p"), settings())).unwrap_err();
    assert!(err.contains("lake not found"), "got: {err}");
    assert!(!world.asked.iter().any(|q| matches!(q, Request::OpenFile { .. })));
}

#[test]
fn serving_tells_of_errors() {
    let mut world = World::new();
    let err = world.run(serve(goal_call("A.lean", 9, None), Some("/p"), settings())).unwrap_err();
    assert_eq!(err, "told: LineOutOfRange { line: 9, total: 2 }");
}

#[test]
fn searching_needs_no_project() {
    let mut world = World::new();
    let turn = serve(
        ToolCall::Loogle(LoogleParams { query: "Nat".to_string(), num_results: None }),
        None,
        settings(),
    );
    match world.run(turn).unwrap() {
        ToolOutcome::Loogle(v) => assert!(v.items.is_empty()),
        other => panic!("expected hits, got: {other:?}"),
    }
    assert_eq!(world.asked.len(), 1);
}

#[test]
fn batches_do_without_what_cannot_be_had() {
    let mut world = World::new();
    let place = world.run(find_batch_place(None));
    assert_eq!(place.project, None);
    assert!(!place.has_client);

    let place = world.run(find_batch_place(Some("/p")));
    assert_eq!(place.project, Some("/p".to_string()));
    assert!(place.has_client);

    world.no_server = Some("lake not found");
    let place = world.run(find_batch_place(Some("/p")));
    assert_eq!(place.project, Some("/p".to_string()));
    assert!(!place.has_client);
}

#[test]
fn a_client_is_kept_for_each_project() {
    let mut table: ClientTable<u32> = ClientTable::new();
    assert_eq!(table.get("/a"), None);
    assert_eq!(table.ensure_client_for("/a", Ok(1)), Ok(()));
    assert_eq!(table.ensure_client_for("/b", Ok(2)), Ok(()));
    assert_eq!(table.get("/a"), Some(&1));
    assert_eq!(table.get("/b"), Some(&2));
    assert_eq!(table.get("/c"), None);
}

#[test]
fn no_two_projects_share_a_client() {
    let mut table: ClientTable<u32> = ClientTable::new();
    let projects = ["/a", "/b", "/a", "/c", "/b"];
    for (started, project) in projects.iter().enumerate() {
        assert_eq!(table.ensure_client_for(project, Ok(started as u32)), Ok(()));
    }
    assert_eq!(table.get("/a"), Some(&0));
    assert_eq!(table.get("/b"), Some(&1));
    assert_eq!(table.get("/c"), Some(&3));
}

#[test]
fn a_client_is_given_again() {
    let mut table: ClientTable<u32> = ClientTable::new();
    assert_eq!(table.ensure_client_for("/a", Err("no lake".to_string())), Err("no lake".to_string()));
    assert_eq!(table.get("/a"), None);
    assert_eq!(table.ensure_client_for("/a", Ok(1)), Ok(()));
    assert_eq!(table.ensure_client_for("/a", Ok(5)), Ok(()));
    assert_eq!(table.ensure_client_for("/a", Err("no lake".to_string())), Ok(()));
    assert_eq!(table.get("/a"), Some(&1));
}

#[test]
fn searching_the_project_enters_it() {
    let mut world = World::new();
    let call = |root: Option<&str>| {
        ToolCall::LocalSearch(LocalSearchParams {
            query: "foo".to_string(),
            limit: None,
            project_root: root.map(|r| r.to_string()),
        })
    };
    let found = world.run(serve(call(None), Some("/p"), settings())).unwrap();
    assert_eq!(found, ToolOutcome::LocalSearch(j(r#"[{"name": "foo"}]"#)));
    assert_eq!(
        world.asked,
        vec![
            Request::EnterProject { project: "/p".to_string(), client: false },
            Request::LocalSearch { query: "foo".to_string(), limit: 10, root: None },
        ]
    );

    let mut world = World::new();
    world.run(serve(call(Some("/q")), Some("/p"), settings())).unwrap();
    assert_eq!(
        world.asked,
        vec![Request::LocalSearch {
            query: "foo".to_string(),
            limit: 10,
            root: Some("/q".to_string()),
        }]
    );
}

#[test]
fn looking_at_goals_changes_nothing() {
    let mut world = World::new();
    world.run(serve(goal_call("A.lean", 2, None), Some("/p"), settings())).unwrap();
    assert!(!world.asked.iter().any(|q| matches!(
        q,
        Request::UpdateFile { .. }
            | Request::ReplaceContent { .. }
            | Request::WriteFile { .. }
            | Request::RemoveFile { .. }
            | Request::MakeDirectory { .. }
            | Request::RunCommand { .. }
    )));
}
