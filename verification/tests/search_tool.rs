#![allow(dead_code)]

use lean_mcp_server::error::LeanToolError;
use lean_mcp_server::json::{parse_json, Json};
use lean_mcp_server::models::GoalDiffResult;
use lean_mcp_server::protocol::{Call, Reply, Request, Turn, WebReply};
use lean_mcp_server::tools::search::{
    handle_hammer_premise, handle_leanfinder, handle_leansearch, handle_loogle_remote,
    handle_state_search, SearchConfig,
};

/// A JSON value, from its text.
fn j(text: &str) -> Json {
    parse_json(text).unwrap()
}

/// A stand-in for all that a tool may ask for.
struct Mock {
    content: String,
    goals: Vec<((u32, u32), Vec<String>)>,
    term_goals: Vec<((u32, u32), Json)>,
    hover: Option<Json>,
    diagnostics: Json,
    interactive: Vec<Json>,
    symbols: Vec<Json>,
    completions: Vec<Json>,
    declarations: Vec<((u32, u32), Vec<Json>)>,
    references: Vec<Json>,
    actions: Vec<Json>,
    resolved: Json,
    widgets: Vec<Json>,
    widget_source: Json,
    files: Vec<(String, String)>,
    failing: Vec<(&'static str, &'static str)>,
    status: &'static str,
    body: &'static str,
    asked: Vec<Request>,
}

fn copies(values: &[Json]) -> Vec<Json> {
    values.iter().map(|v| v.duplicate()).collect()
}

impl Mock {
    fn new(content: &str) -> Mock {
        Mock {
            content: content.to_string(),
            goals: vec![],
            term_goals: vec![],
            hover: None,
            diagnostics: j(r#"{"diagnostics": [], "success": true}"#),
            interactive: vec![],
            symbols: vec![],
            completions: vec![],
            declarations: vec![],
            references: vec![],
            actions: vec![],
            resolved: j("{}"),
            widgets: vec![],
            widget_source: j("{}"),
            files: vec![],
            failing: vec![],
            status: "200 OK",
            body: "{}",
            asked: vec![],
        }
    }

    /// The goals at a position (from 0).
    fn with_goal(mut self, line: u32, column: u32, goals: Option<Json>) -> Mock {
        let list = match &goals {
            Some(v) => match v.items_member("goals") {
                Some(items) => items.iter().map(|g| g.as_str().unwrap().to_string()).collect(),
                None => vec![],
            },
            None => vec![],
        };
        self.goals.push(((line, column), list));
        self
    }

    /// The name of a request.
    fn name(q: &Request) -> String {
        let shown = format!("{q:?}");
        shown.split([' ', '{']).next().unwrap().to_string()
    }

    /// The names of all requests so far.
    fn names(&self) -> Vec<String> {
        self.asked.iter().map(Mock::name).collect()
    }

    fn reply(&self, q: &Request) -> Reply {
        for (name, message) in &self.failing {
            if Mock::name(q) == *name {
                return Reply::Failed(message.to_string());
            }
        }
        match q {
            Request::PostJson { .. } | Request::GetJson { .. } => {
                Reply::Web(if self.status != "200 OK" {
                    WebReply::Refused(self.status.to_string())
                } else {
                    match serde_json::from_str(self.body) {
                        Ok(v) => WebReply::Answer(v),
                        Err(_) => WebReply::NotJson("error decoding response body".to_string()),
                    }
                })
            }
            Request::FileContent { .. } => Reply::Text(self.content.clone()),
            Request::Goal { line, column, .. } => {
                for ((l, c), goals) in &self.goals {
                    if l == line && c == column {
                        return Reply::Texts(goals.clone());
                    }
                }
                Reply::Texts(vec![])
            }
            Request::TermGoal { line, column, .. } => {
                for ((l, c), v) in &self.term_goals {
                    if l == line && c == column {
                        return Reply::MaybeValue(Some(v.duplicate()));
                    }
                }
                Reply::MaybeValue(None)
            }
            Request::Hover { .. } => Reply::MaybeValue(self.hover.as_ref().map(|v| v.duplicate())),
            Request::Diagnostics { .. } => Reply::Value(self.diagnostics.duplicate()),
            Request::InteractiveDiagnostics { .. } => Reply::Values(copies(&self.interactive)),
            Request::Symbols { .. } => Reply::Values(copies(&self.symbols)),
            Request::Completions { .. } => Reply::Values(copies(&self.completions)),
            Request::Declarations { line, column, .. } => {
                for ((l, c), found) in &self.declarations {
                    if l == line && c == column {
                        return Reply::Values(copies(found));
                    }
                }
                Reply::Values(vec![])
            }
            Request::References { .. } => Reply::Values(copies(&self.references)),
            Request::CodeActions { .. } => Reply::Values(copies(&self.actions)),
            Request::ResolveAction { .. } => Reply::Value(self.resolved.duplicate()),
            Request::Widgets { .. } => Reply::Values(copies(&self.widgets)),
            Request::WidgetSource { .. } => Reply::Value(self.widget_source.duplicate()),
            Request::ReadFile { path } => match self.files.iter().find(|(p, _)| p == path) {
                Some((_, content)) => Reply::Text(content.clone()),
                None => Reply::Failed("No such file or directory (os error 2)".to_string()),
            },
            Request::FindSymbol { content, symbol } => {
                for (i, line) in content.lines().enumerate() {
                    if let Some(column) = line.find(symbol.as_str()) {
                        return Reply::Position(Some((i, column)));
                    }
                }
                Reply::Position(None)
            }
            Request::UriPaths { uris } => Reply::Names(
                uris.iter().map(|u| u.strip_prefix("file://").map(|p| p.to_string())).collect(),
            ),
            Request::KindNames { kinds } => Reply::Names(
                kinds
                    .iter()
                    .map(|k| match k {
                        Some(3) => Some("Function".to_string()),
                        Some(6) => Some("Variable".to_string()),
                        Some(21) => Some("Constant".to_string()),
                        _ => None,
                    })
                    .collect(),
            ),
            Request::SeverityNames { severities } => Reply::Texts(
                severities
                    .iter()
                    .map(|s| match s {
                        1 => "error".to_string(),
                        2 => "warning".to_string(),
                        3 => "info".to_string(),
                        4 => "hint".to_string(),
                        n => format!("unknown({n})"),
                    })
                    .collect(),
            ),
            Request::DiffGoals { before, after } => Reply::Diff(GoalDiffResult {
                goals_added: after.clone(),
                goals_removed: before.clone(),
                hypotheses_added: vec![],
                hypotheses_removed: vec![],
                changed: before != after,
            }),
            Request::ErrorText { error } => Reply::Text(format!("{error:?}")),
            _ => Reply::Done,
        }
    }

    /// Plays a tool to its end.
    fn run<C: Call>(&mut self, turn: Turn<C, C::Out>) -> C::Out {
        let mut turn = turn;
        loop {
            match turn {
                Turn::Ask(q, call) => {
                    let reply = self.reply(&q);
                    self.asked.push(q);
                    assert!(call.accepts(&reply));
                    turn = call.resume(reply);
                }
                Turn::Done(outcome) => return outcome,
            }
        }
    }
}

/// Services that are all at one place.
fn mock_config() -> SearchConfig {
    SearchConfig::with_settings(
        Some("http://mock".to_string()),
        Some("http://mock".to_string()),
        Some("http://mock".to_string()),
        Some("http://mock".to_string()),
        Some("http://mock".to_string()),
    )
}

/// The words of an error.
fn words(e: &LeanToolError) -> String {
    match e {
        LeanToolError::Other(m) => m.clone(),
        other => panic!("expected Other, got: {other:?}"),
    }
}

impl Mock {
    /// What the service answers.
    fn answering(mut self, status: &'static str, body: &'static str) -> Mock {
        self.status = status;
        self.body = body;
        self
    }

    /// Where requests of this kind went.
    fn sent(&self, method: &str) -> Vec<String> {
        self.asked
            .iter()
            .filter_map(|q| match q {
                Request::PostJson { url, .. } if method == "POST" => Some(url.clone()),
                Request::GetJson { url, .. } if method == "GET" => Some(url.clone()),
                _ => None,
            })
            .collect()
    }

    /// The parameter of this name in the last request.
    fn parameter(&self, name: &str) -> Option<String> {
        match self.asked.last() {
            Some(Request::GetJson { pairs, .. }) => {
                pairs.iter().find(|(k, _)| k == name).map(|(_, v)| v.clone())
            }
            _ => None,
        }
    }
}

#[test]
fn leansearch_returns_results() {
    let mut client = Mock::new("").answering(
        "200 OK",
        r##"{
            "results": [[
                {
                    "result": {
                        "name": ["Nat", "add_comm"],
                        "module_name": ["Init", "Data", "Nat"],
                        "kind": "theorem",
                        "type": "forall (n m : Nat), n + m = m + n"
                    }
                },
                {
                    "result": {
                        "name": ["Nat", "mul_comm"],
                        "module_name": ["Init", "Data", "Nat"],
                        "kind": "theorem",
                        "type": "forall (n m : Nat), n * m = m * n"
                    }
                }
            ]]
        }"##,
    );
    let config = mock_config();
    let result = client.run(handle_leansearch("commutativity of addition", 5, &config)).unwrap();

    assert_eq!(result.items.len(), 2);
    assert_eq!(result.items[0].name, "Nat.add_comm");
    assert_eq!(result.items[0].module_name, "Init.Data.Nat");
    assert_eq!(result.items[0].kind, Some("theorem".to_string()));
    assert_eq!(
        result.items[0].type_,
        Some("forall (n m : Nat), n + m = m + n".to_string())
    );
    assert_eq!(result.items[1].name, "Nat.mul_comm");
    assert_eq!(client.sent("POST"), vec!["http://mock/search".to_string()]);
}

#[test]
fn leansearch_handles_empty_response() {
    let mut client = Mock::new("").answering("200 OK", r##"{ "results": [[]] }"##);
    let config = mock_config();
    let result = client.run(handle_leansearch("nonexistent query", 5, &config)).unwrap();

    assert!(result.items.is_empty());
    assert_eq!(client.sent("POST"), vec!["http://mock/search".to_string()]);
}

#[test]
fn leansearch_handles_missing_results_key() {
    let mut client = Mock::new("").answering("200 OK", r##"{}"##);
    let config = mock_config();
    let result = client.run(handle_leansearch("query", 5, &config)).unwrap();

    assert!(result.items.is_empty());
    assert_eq!(client.sent("POST"), vec!["http://mock/search".to_string()]);
}

#[test]
fn loogle_returns_results() {
    let mut client = Mock::new("").answering(
        "200 OK",
        r##"{
            "hits": [
                {
                    "name": "Nat.add_comm",
                    "type": "forall (n m : Nat), n + m = m + n",
                    "module": "Init.Data.Nat.Lemmas"
                },
                {
                    "name": "Nat.add_comm'",
                    "type": "forall (n m : Nat), n + m = m + n",
                    "module": "Init.Data.Nat.Lemmas"
                }
            ]
        }"##,
    );
    let config = mock_config();
    let result = client.run(handle_loogle_remote("Nat.add_comm", 8, &config)).unwrap();

    assert_eq!(result.items.len(), 2);
    assert_eq!(result.items[0].name, "Nat.add_comm");
    assert_eq!(result.items[0].type_, "forall (n m : Nat), n + m = m + n");
    assert_eq!(result.items[0].module, "Init.Data.Nat.Lemmas");
    assert_eq!(client.sent("GET"), vec!["http://mock/json".to_string()]);
    assert_eq!(client.parameter("q"), Some("Nat.add_comm".to_string()));
}

#[test]
fn loogle_handles_no_hits() {
    let mut client = Mock::new("").answering("200 OK", r##"{ "hits": [] }"##);
    let config = mock_config();
    let result = client.run(handle_loogle_remote("nonexistent", 8, &config)).unwrap();

    assert!(result.items.is_empty());
    assert_eq!(client.sent("GET"), vec!["http://mock/json".to_string()]);
}

#[test]
fn loogle_handles_error_response() {
    let mut client = Mock::new("").answering("200 OK", r##"{ "error": "Invalid query syntax" }"##);
    let config = mock_config();
    let err = client.run(handle_loogle_remote("bad query ??? !!!", 8, &config)).unwrap_err();

    assert!(words(&err).contains("Loogle error"));
    assert!(words(&err).contains("Invalid query syntax"));
    assert_eq!(client.sent("GET"), vec!["http://mock/json".to_string()]);
}

#[test]
fn loogle_respects_num_results() {
    let mut client = Mock::new("").answering(
        "200 OK",
        r##"{
            "hits": [
                {"name": "A", "type": "T", "module": "M"},
                {"name": "B", "type": "T", "module": "M"},
                {"name": "C", "type": "T", "module": "M"}
            ]
        }"##,
    );
    let config = mock_config();
    let result = client.run(handle_loogle_remote("query", 2, &config)).unwrap();

    assert_eq!(result.items.len(), 2);
    assert_eq!(client.sent("GET"), vec!["http://mock/json".to_string()]);
}

#[test]
fn leanfinder_filters_to_mathlib4() {
    let mut client = Mock::new("").answering(
        "200 OK",
        r##"{
            "results": [
                {
                    "url": "https://leanprover-community.github.io/mathlib4_docs/find/?pattern=Nat.add_comm#doc",
                    "formal_statement": "theorem Nat.add_comm : forall n m, n + m = m + n",
                    "informal_statement": "Commutativity of natural number addition"
                },
                {
                    "url": "https://example.com/Other.html",
                    "formal_statement": "def other",
                    "informal_statement": "Not mathlib4"
                },
                {
                    "url": "https://leanprover-community.github.io/mathlib4_docs/find/?pattern=Nat.mul_comm#doc",
                    "formal_statement": "theorem Nat.mul_comm : forall n m, n * m = m * n",
                    "informal_statement": "Commutativity of natural number multiplication"
                }
            ]
        }"##,
    );
    let config = mock_config();
    let result = client.run(handle_leanfinder("commutativity", 5, &config)).unwrap();

    // Only mathlib4_docs URLs should be included
    assert_eq!(result.items.len(), 2);
    assert_eq!(result.items[0].full_name, "Nat.add_comm");
    assert_eq!(result.items[1].full_name, "Nat.mul_comm");
    assert_eq!(client.sent("POST"), vec!["http://mock".to_string()]);
}

#[test]
fn leanfinder_extracts_names_from_urls() {
    let mut client = Mock::new("").answering(
        "200 OK",
        r##"{
            "results": [
                {
                    "url": "https://leanprover-community.github.io/mathlib4_docs/find/?pattern=IsOpen#doc",
                    "formal_statement": "def IsOpen",
                    "informal_statement": "An open set"
                }
            ]
        }"##,
    );
    let config = mock_config();
    let result = client.run(handle_leanfinder("open set", 5, &config)).unwrap();

    assert_eq!(result.items.len(), 1);
    assert_eq!(result.items[0].full_name, "IsOpen");
    assert_eq!(result.items[0].formal_statement, "def IsOpen");
    assert_eq!(result.items[0].informal_statement, "An open set");
    assert_eq!(client.sent("POST"), vec!["http://mock".to_string()]);
}

#[test]
fn leanfinder_handles_empty_response() {
    let mut client = Mock::new("").answering("200 OK", r##"{"results": []}"##);
    let config = mock_config();
    let result = client.run(handle_leanfinder("nothing", 5, &config)).unwrap();

    assert!(result.items.is_empty());
    assert_eq!(client.sent("POST"), vec!["http://mock".to_string()]);
}

#[test]
fn state_search_gets_goal_then_searches() {

    // line 2, col 3 -> 0-indexed (1, 2) -> goal response
    let mut client = Mock::new("theorem foo : Nat := by\n  exact h")
        .with_goal(1, 2, Some(j(r##"{"goals": ["a : Nat |- a = a"]}"##)))
        .answering("200 OK", r##"[ {"name": "rfl"}, {"name": "Eq.refl"} ]"##);

    let config = mock_config();
    let result = client.run(handle_state_search("Main.lean", 2, 3, 5, &config)).unwrap();

    assert_eq!(result.items.len(), 2);
    assert_eq!(result.items[0].name, "rfl");
    assert_eq!(result.items[1].name, "Eq.refl");
    assert_eq!(client.sent("GET"), vec!["http://mock/api/search".to_string()]);
    assert_eq!(client.parameter("query"), Some("a : Nat |- a = a".to_string()));
    assert_eq!(client.parameter("rev"), Some("v4.22.0".to_string()));
}

#[test]
fn state_search_no_goals_returns_error() {
    let mut client = Mock::new("import Mathlib");

    let config = mock_config();
    let err = client.run(handle_state_search("Main.lean", 1, 1, 5, &config)).unwrap_err();

    match err {
        LeanToolError::NoGoals { line, column } => {
            assert_eq!(line, 1);
            assert_eq!(column, 1);
        }
        other => panic!("expected NoGoals, got: {other:?}"),
    }
}

#[test]
fn hammer_premise_gets_goal_then_retrieves() {

    let mut client = Mock::new("theorem foo : Nat := by\n  simp")
        .with_goal(1, 2, Some(j(r##"{"goals": ["n m : Nat |- n + m = m + n"]}"##)))
        .answering("200 OK", r##"[ "Nat.add_comm", "Nat.add_assoc", "Nat.zero_add" ]"##);

    let config = mock_config();
    let result = client.run(handle_hammer_premise("Main.lean", 2, 3, 32, &config)).unwrap();

    assert_eq!(result.items.len(), 3);
    assert_eq!(result.items[0].name, "Nat.add_comm");
    assert_eq!(result.items[1].name, "Nat.add_assoc");
    assert_eq!(result.items[2].name, "Nat.zero_add");
    assert_eq!(client.sent("POST"), vec!["http://mock/retrieve".to_string()]);
}

#[test]
fn hammer_premise_no_goals_returns_error() {
    let mut client = Mock::new("import Mathlib");

    let config = mock_config();
    let err = client.run(handle_hammer_premise("Main.lean", 1, 1, 32, &config)).unwrap_err();

    match err {
        LeanToolError::NoGoals { line, column } => {
            assert_eq!(line, 1);
            assert_eq!(column, 1);
        }
        other => panic!("expected NoGoals, got: {other:?}"),
    }
}

#[test]
fn leansearch_http_error_status() {
    let mut client = Mock::new("").answering("500 Internal Server Error", r##"{}"##);
    let config = mock_config();
    let err = client.run(handle_leansearch("query", 5, &config)).unwrap_err();

    assert!(words(&err).contains("status"));
    assert_eq!(client.sent("POST"), vec!["http://mock/search".to_string()]);
}

#[test]
fn loogle_http_error_status() {
    let mut client = Mock::new("").answering("503 Service Unavailable", r##"{}"##);
    let config = mock_config();
    let err = client.run(handle_loogle_remote("query", 8, &config)).unwrap_err();

    assert!(words(&err).contains("status"));
    assert_eq!(client.sent("GET"), vec!["http://mock/json".to_string()]);
}

#[test]
fn leanfinder_http_error_status() {
    let mut client = Mock::new("").answering("502 Bad Gateway", r##"{}"##);
    let config = mock_config();
    let err = client.run(handle_leanfinder("query", 5, &config)).unwrap_err();

    assert!(words(&err).contains("status"));
    assert_eq!(client.sent("POST"), vec!["http://mock".to_string()]);
}

#[test]
fn leansearch_invalid_json_response() {
    let mut client = Mock::new("").answering("200 OK", r##"not json"##);
    let config = mock_config();
    let err = client.run(handle_leansearch("query", 5, &config)).unwrap_err();

    assert!(words(&err).contains("JSON parse error"));
    assert_eq!(client.sent("POST"), vec!["http://mock/search".to_string()]);
}

#[test]
fn state_search_http_error_status() {

    let mut client = Mock::new("theorem foo := by\n  simp")
        .with_goal(1, 2, Some(j(r##"{"goals": ["some goal"]}"##)))
        .answering("500 Internal Server Error", r##"{}"##);

    let config = mock_config();
    let err = client.run(handle_state_search("Main.lean", 2, 3, 5, &config)).unwrap_err();

    assert!(words(&err).contains("status"));
    assert_eq!(client.sent("GET"), vec!["http://mock/api/search".to_string()]);
}

#[test]
fn hammer_premise_http_error_status() {

    let mut client = Mock::new("theorem foo := by\n  simp")
        .with_goal(1, 2, Some(j(r##"{"goals": ["some goal"]}"##)))
        .answering("500 Internal Server Error", r##"{}"##);

    let config = mock_config();
    let err = client.run(handle_hammer_premise("Main.lean", 2, 3, 32, &config)).unwrap_err();

    assert!(words(&err).contains("status"));
    assert_eq!(client.sent("POST"), vec!["http://mock/retrieve".to_string()]);
}

#[test]
fn leansearch_asks_for_a_number_of_results() {
    let mut client = Mock::new("").answering("200 OK", r##"{"results": [[]]}"##);
    client.run(handle_leansearch("a \"b\"", 7, &mock_config())).unwrap();
    assert_eq!(
        client.asked,
        vec![Request::PostJson {
            url: "http://mock/search".to_string(),
            body: j(r##"{"num_results": "7", "query": ["a \"b\""]}"##),
        }]
    );
}

#[test]
fn leanfinder_asks_for_a_number_of_results() {
    let mut client = Mock::new("").answering("200 OK", r##"{"results": []}"##);
    client.run(handle_leanfinder("groups", 3, &mock_config())).unwrap();
    assert_eq!(
        client.asked,
        vec![Request::PostJson {
            url: "http://mock".to_string(),
            body: j(r##"{"inputs": "groups", "top_k": 3}"##),
        }]
    );
}

#[test]
fn hammer_premise_sends_the_goal() {
    let mut client = Mock::new("theorem foo : Nat := by\n  simp")
        .with_goal(1, 2, Some(j(r##"{"goals": ["g1", "g2"]}"##)))
        .answering("200 OK", r##"["A", 1, "B"]"##);
    let result = client
        .run(handle_hammer_premise("Main.lean", 2, 3, 32, &mock_config())).unwrap();
    assert_eq!(result.items.len(), 2);
    assert_eq!(result.items[0].name, "A");
    assert_eq!(result.items[1].name, "B");
    assert_eq!(
        *client.asked.last().unwrap(),
        Request::PostJson {
            url: "http://mock/retrieve".to_string(),
            body: j(r##"{"k": 32, "new_premises": [], "state": "g1"}"##),
        }
    );
}

#[test]
fn search_without_an_answer() {
    for (reply, expected) in [
        (
            WebReply::NoClient("no roots".to_string()),
            "Failed to build HTTP client: no roots",
        ),
        (WebReply::NotSent("timed out".to_string()), "Loogle HTTP error: timed out"),
        (WebReply::Refused("404 Not Found".to_string()), "Loogle returned status 404 Not Found"),
        (WebReply::NotJson("eof".to_string()), "Loogle JSON parse error: eof"),
    ] {
        let turn = handle_loogle_remote("q", 8, &mock_config());
        let call = match turn {
            Turn::Ask(_, call) => call,
            Turn::Done(_) => panic!("expected a request"),
        };
        match call.resume(Reply::Web(reply)) {
            Turn::Done(Err(e)) => assert_eq!(words(&e), expected),
            _ => panic!("expected an error"),
        }
    }
}

#[test]
fn search_config_defaults() {
    let config = SearchConfig::with_settings(
        None,
        Some("http://localhost:1".to_string()),
        None,
        None,
        None,
    );
    assert_eq!(config.leansearch_url, "https://leansearch.net");
    assert_eq!(config.loogle_url, "http://localhost:1");
    assert_eq!(config.state_search_url, "https://premise-search.com");
    assert_eq!(config.hammer_premise_url, "http://leanpremise.net");
}
