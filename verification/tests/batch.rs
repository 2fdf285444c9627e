use lean_mcp_server::json::{parse_json, Json};
use lean_mcp_server::models::{BatchCall, BatchResult};
use lean_mcp_server::protocol::{Call, Reply, Request, Turn, WebReply};
use lean_mcp_server::server::{BuildParams, GoalParams, LoogleParams};
use lean_mcp_server::tools::batch::{gather, handle_batch, require_client, require_project, settle};
use lean_mcp_server::tools::search::SearchConfig;
use lean_mcp_server::tools::toolbox::{find_tool, Settings, Tool, ToolCall, ToolOutcome};

/// A JSON value, from its text.
fn j(text: &str) -> Json {
    parse_json(text).unwrap()
}

fn default_settings() -> Settings {
    Settings::for_one_call(SearchConfig::with_settings(None, None, None, None, None), None, 1)
}

/// What the calls of a batch ask for is answered here.
fn reply(q: &Request) -> Reply {
    match q {
        Request::Arguments { tool, arguments } => match tool {
            Tool::Goal => Reply::Arguments(ToolCall::Goal(GoalParams {
                file_path: arguments.text_member("file_path").unwrap().to_string(),
                line: arguments.get("line").unwrap().as_u64().unwrap() as u32,
                column: None,
                declaration_name: None,
            })),
            Tool::Build => {
                Reply::Arguments(ToolCall::Build(BuildParams { clean: None, output_lines: None }))
            }
            Tool::Loogle => match arguments.text_member("query") {
                Some(query) => Reply::Arguments(ToolCall::Loogle(LoogleParams {
                    query: query.to_string(),
                    num_results: None,
                })),
                None => Reply::Failed("missing field `query`".to_string()),
            },
            other => panic!("unexpected tool: {other:?}"),
        },
        Request::GetJson { .. } => Reply::Web(WebReply::Answer(
            serde_json::from_str(r#"{"hits": [{"name": "A", "type": "T", "module": "M"}]}"#)
                .unwrap(),
        )),
        Request::ErrorText { error } => Reply::Text(format!("{error:?}")),
        other => panic!("unexpected request: {other:?}"),
    }
}

/// Plays a call to its end.
fn run<C: Call>(turn: Turn<C, C::Out>) -> C::Out {
    let mut turn = turn;
    loop {
        match turn {
            Turn::Ask(q, call) => {
                let reply = reply(&q);
                assert!(call.accepts(&reply));
                turn = call.resume(reply);
            }
            Turn::Done(outcome) => return outcome,
        }
    }
}

/// Plays the calls of a batch one after the other. Of what a tool found, only the
/// number of hits is kept.
fn play(calls: Vec<BatchCall>, has_client: bool, project: Option<&str>) -> BatchResult {
    let mut answers = vec![];
    for item in handle_batch(calls, has_client, project, &default_settings()) {
        let answer = match run(item.turn) {
            Ok(ToolOutcome::Loogle(v)) => Ok(Json::PosInt(v.items.len() as u64)),
            Ok(other) => panic!("unexpected outcome: {other:?}"),
            Err(m) => Err(m),
        };
        answers.push((item.tool_name, answer));
    }
    gather(answers)
}

#[test]
fn empty_batch_returns_empty_items() {
    let result = play(vec![], false, None);
    assert!(result.items.is_empty());
}

#[test]
fn unknown_tool_returns_error() {
    let calls = vec![BatchCall { tool_name: "nonexistent_tool".into(), arguments: j("{}") }];
    let result = play(calls, false, None);
    assert_eq!(result.items.len(), 1);
    assert!(result.items[0].is_error);
    assert!(result.items[0].error.as_ref().unwrap().contains("Unknown tool"));
}

#[test]
fn self_recursion_blocked() {
    let calls = vec![BatchCall {
        tool_name: "lean_batch".into(),
        arguments: j(r#"{"calls": []}"#),
    }];
    let result = play(calls, false, None);
    assert_eq!(result.items.len(), 1);
    assert!(result.items[0].is_error);
    assert!(result.items[0].error.as_ref().unwrap().contains("recursively"));
}

#[test]
fn lsp_tool_without_client_returns_error() {
    let calls = vec![BatchCall {
        tool_name: "lean_goal".into(),
        arguments: j(r#"{"file_path": "/tmp/test.lean", "line": 1}"#),
    }];
    let result = play(calls, false, None);
    assert_eq!(result.items.len(), 1);
    assert!(result.items[0].is_error);
    assert!(result.items[0].error.as_ref().unwrap().to_lowercase().contains("lsp"));
}

#[test]
fn build_without_project_path_returns_error() {
    let calls = vec![BatchCall { tool_name: "lean_build".into(), arguments: j("{}") }];
    let result = play(calls, false, None);
    assert_eq!(result.items.len(), 1);
    assert!(result.items[0].is_error);
    assert!(result.items[0].error.as_ref().unwrap().to_lowercase().contains("project"));
}

#[test]
fn order_preserved() {
    let calls = vec![
        BatchCall {
            tool_name: "lean_goal".into(),
            arguments: j(r#"{"file_path": "/tmp/a.lean", "line": 1}"#),
        },
        BatchCall { tool_name: "lean_build".into(), arguments: j("{}") },
        BatchCall { tool_name: "nonexistent".into(), arguments: j("{}") },
    ];
    let result = play(calls, false, None);
    assert_eq!(result.items.len(), 3);
    assert_eq!(result.items[0].tool_name, "lean_goal");
    assert_eq!(result.items[1].tool_name, "lean_build");
    assert_eq!(result.items[2].tool_name, "nonexistent");
}

#[test]
fn one_failure_does_not_stop_the_others() {
    let calls = vec![
        BatchCall { tool_name: "lean_loogle".into(), arguments: j("{}") },
        BatchCall { tool_name: "lean_loogle".into(), arguments: j(r#"{"query": "Nat"}"#) },
    ];
    let result = play(calls, false, None);
    assert_eq!(result.items.len(), 2);
    assert_eq!(
        result.items[0].error,
        Some("Invalid arguments: missing field `query`".to_string())
    );
    assert!(result.items[0].result.is_none());
    assert!(!result.items[1].is_error);
    assert_eq!(result.items[1].result, Some(Json::PosInt(1)));
    assert!(result.items[1].error.is_none());
}

#[test]
fn settle_tells_results_from_errors() {
    let good = settle("a".to_string(), Ok(j("[1]")));
    assert_eq!(good.result, Some(j("[1]")));
    assert!(!good.is_error);
    assert_eq!(good.error, None);
    let bad = settle("a".to_string(), Err("no".to_string()));
    assert_eq!(bad.result, None);
    assert!(bad.is_error);
    assert_eq!(bad.error, Some("no".to_string()));
}

#[test]
fn what_a_tool_works_in_is_required() {
    assert_eq!(require_client(true), Ok(()));
    assert_eq!(
        require_client(false),
        Err("No LSP client available. Set a Lean project path first.".to_string())
    );
    assert_eq!(require_project(Some("/p")), Ok("/p"));
    assert_eq!(require_project(None), Err("No Lean project path configured.".to_string()));
}

#[test]
fn tools_are_found_by_name() {
    assert_eq!(find_tool("lean_goal"), Some(Tool::Goal));
    assert_eq!(find_tool("lean_build"), Some(Tool::Build));
    assert_eq!(find_tool("lean_batch"), None);
    assert_eq!(find_tool("Lean_goal"), None);
}

#[test]
fn identifiers_of_calls_are_uuids() {
    let a = default_settings();
    let b = a.for_another_call();
    assert_ne!(a.id, b.id);
    for id in [&a.id, &b.id] {
        assert_eq!(id.len(), 32);
        assert!(id.chars().all(|c| c.is_ascii_hexdigit() && !c.is_ascii_uppercase()));
        assert_eq!(id.as_bytes()[12], b'4');
        assert!(b"89ab".contains(&id.as_bytes()[16]));
    }
}

#[test]
fn a_call_comes_out_as_in_a_batch_of_its_own() {
    let call = |name: &str, arguments: &str| BatchCall {
        tool_name: name.into(),
        arguments: j(arguments),
    };
    let all = || {
        vec![
            call("lean_batch", "{}"),
            call("lean_loogle", r#"{"query": "Nat"}"#),
            call("nonexistent", "{}"),
            call("lean_loogle", "{}"),
            call("lean_build", "{}"),
        ]
    };
    let together = play(all(), false, None);
    assert_eq!(together.items.len(), 5);
    for (i, call) in all().into_iter().enumerate() {
        let alone = play(vec![call], false, None);
        assert_eq!(alone.items.len(), 1);
        assert_eq!(alone.items[0], together.items[i]);
        assert_eq!(alone.items[0].is_error, alone.items[0].error.is_some());
        assert_eq!(alone.items[0].is_error, alone.items[0].result.is_none());
    }
    assert!(together.items[0].error.as_ref().unwrap().contains("recursively"));
}
