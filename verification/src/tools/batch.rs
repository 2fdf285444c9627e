//! Many tool calls at once.
use crate::ids::is_uuid;
use crate::json::{Json, JsonView};
use crate::models::{
    all_views, opt_str, opt_text, BatchCall, BatchCallResult, BatchCallResultView, BatchCallView,
    BatchResult,
};
use crate::protocol::{
    begins, Call, Dialogue, Reply, ReplyView, Request, RequestView, Turn, Waiting, Waits,
};
use crate::text::{contains_of, glue, occurs_at, same_text};
use crate::tools::toolbox::{
    answer, answer_dialogue, answer_said, find_tool, settings_for, tool_named, tool_of, AnswerCall,
    AnswerSaid, Settings, SettingsView, Tool, ToolCall, ToolOutcome,
};
use vstd::prelude::*;
use vstd::string::*;

verus! {

// ---------------------------------------------------------------------------
// What a call needs
// ---------------------------------------------------------------------------

/// What a tool is refused with that needs a language server.
pub open spec fn no_client() -> Seq<char> {
    "No LSP client available. Set a Lean project path first."@
}

/// What a tool is refused with that needs a project.
pub open spec fn no_project() -> Seq<char> {
    "No Lean project path configured."@
}

/// Asks for a language server.
pub fn require_client(has_client: bool) -> (r: Result<(), String>)
    ensures
        r is Ok == has_client,
        r matches Err(m) ==> m@ == no_client(),
{
    if has_client {
        Ok(())
    } else {
        Err("No LSP client available. Set a Lean project path first.".to_owned())
    }
}

/// Asks for a project.
pub fn require_project(project_path: Option<&str>) -> (r: Result<&str, String>)
    ensures
        match r {
            Ok(p) => project_path is Some && p@ == project_path->0@,
            Err(m) => project_path is None && m@ == no_project(),
        },
{
    match project_path {
        Some(p) => Ok(p),
        None => Err("No Lean project path configured.".to_owned()),
    }
}

/// Whether a tool works with a language server.
pub open spec fn wants_client(tool: Tool) -> bool {
    match tool {
        Tool::Build => false,
        Tool::Profile => false,
        Tool::LocalSearch => false,
        Tool::LeanSearch => false,
        Tool::Loogle => false,
        Tool::LeanFinder => false,
        Tool::ProjectHealth => false,
        _ => true,
    }
}

/// Whether a tool works in a project, besides a language server's.
pub open spec fn wants_project(tool: Tool) -> bool {
    tool == Tool::RunCode || tool == Tool::Build || tool == Tool::Profile
}

/// What a call is refused with, if it is.
pub open spec fn refusal(call: ToolCall, has_client: bool, project: Option<Seq<char>>) -> Option<
    Seq<char>,
> {
    if wants_client(tool_of(call)) && !has_client {
        Some(no_client())
    } else if wants_project(tool_of(call)) && project is None {
        Some(no_project())
    } else {
        match call {
            ToolCall::LocalSearch(p) => if p.project_root is None && project is None {
                Some("No project path available for local search."@)
            } else {
                None
            },
            _ => None,
        }
    }
}

/// Refuses a call, where something is missing.
fn refuse(call: &ToolCall, has_client: bool, project: Option<&str>) -> (r: Option<String>)
    ensures
        opt_text(r) == refusal(*call, has_client, opt_str(project)),
{
    let tool = call.tool();
    let client_wanted = match tool {
        Tool::Build => false,
        Tool::Profile => false,
        Tool::LocalSearch => false,
        Tool::LeanSearch => false,
        Tool::Loogle => false,
        Tool::LeanFinder => false,
        Tool::ProjectHealth => false,
        _ => true,
    };
    if client_wanted {
        if let Err(m) = require_client(has_client) {
            return Some(m);
        }
    }
    if tool == Tool::RunCode || tool == Tool::Build || tool == Tool::Profile {
        if let Err(m) = require_project(project) {
            return Some(m);
        }
    }
    match call {
        ToolCall::LocalSearch(p) => if p.project_root.is_none() && project.is_none() {
            Some("No project path available for local search.".to_owned())
        } else {
            None
        },
        _ => None,
    }
}

// ---------------------------------------------------------------------------
// One call
// ---------------------------------------------------------------------------

/// After the arguments of a tool were read.
pub open spec fn arguments_read(
    tool: Tool,
    has_client: bool,
    project: Option<Seq<char>>,
    s: SettingsView,
) -> Waiting<AnswerSaid> {
    |r: ReplyView|
        match r {
            ReplyView::Arguments(call) => if tool_of(call) == tool {
                match refusal(call, has_client, project) {
                    Some(m) => Dialogue::Finish(Err(m)),
                    None => answer_dialogue(call, s),
                }
            } else {
                Dialogue::Finish(Err("Invalid arguments: "@))
            },
            _ => Dialogue::Finish(Err("Invalid arguments: "@ + r.trouble())),
        }
}

/// The whole of one call in a batch.
pub open spec fn dispatch_dialogue(
    name: Seq<char>,
    arguments: JsonView,
    has_client: bool,
    project: Option<Seq<char>>,
    s: SettingsView,
) -> Dialogue<AnswerSaid> {
    if name == "lean_batch"@ {
        Dialogue::Finish(Err("lean_batch cannot call itself recursively."@))
    } else {
        match tool_named(name) {
            Some(tool) => Dialogue::Ask(
                RequestView::Arguments { tool, arguments },
                arguments_read(tool, has_client, project, s),
            ),
            None => Dialogue::Finish(Err("Unknown tool: "@ + name)),
        }
    }
}

/// One call in a batch at work.
pub enum DispatchCall {
    /// Waits for the arguments of the tool.
    Reading { tool: Tool, has_client: bool, project: Option<String>, settings: Settings },
    /// The tool is at work.
    Answering(AnswerCall),
}

impl Waits for DispatchCall {
    type Out = Result<ToolOutcome, String>;

    type Said = AnswerSaid;

    open spec fn said(o: Self::Out) -> AnswerSaid {
        answer_said(o)
    }

    open spec fn valid(self) -> bool {
        match self {
            DispatchCall::Reading { tool, has_client, project, settings } => true,
            DispatchCall::Answering(c) => c.valid(),
        }
    }

    open spec fn waiting(self) -> Waiting<AnswerSaid> {
        match self {
            DispatchCall::Reading { tool, has_client, project, settings } => arguments_read(
                tool,
                has_client,
                opt_text(project),
                settings@,
            ),
            DispatchCall::Answering(c) => c.waiting(),
        }
    }

    open spec fn admits(self, r: ReplyView) -> bool {
        match self {
            DispatchCall::Reading { tool, has_client, project, settings } => true,
            DispatchCall::Answering(c) => c.admits(r),
        }
    }
}

impl DispatchCall {
    /// Goes on with the tool.
    fn answered(t: Turn<AnswerCall, Result<ToolOutcome, String>>) -> (r: Turn<
        DispatchCall,
        Result<ToolOutcome, String>,
    >)
        ensures
            forall|d: Dialogue<AnswerSaid>| #[trigger] begins(t, d) ==> begins(r, d),
    {
        match t {
            Turn::Ask(q, c) => Turn::Ask(q, DispatchCall::Answering(c)),
            Turn::Done(o) => Turn::Done(o),
        }
    }
}

impl Call for DispatchCall {
    fn accepts(&self, reply: &Reply) -> (r: bool) {
        match self {
            DispatchCall::Reading { tool, has_client, project, settings } => true,
            DispatchCall::Answering(c) => c.accepts(reply),
        }
    }

    fn resume(self, reply: Reply) -> (t: Turn<Self, Self::Out>) {
        match self {
            DispatchCall::Reading { tool, has_client, project, settings } => match reply {
                Reply::Arguments(call) => if call.tool() == tool {
                    let root = match &project {
                        Some(p) => Some(p.as_str()),
                        None => None,
                    };
                    match refuse(&call, has_client, root) {
                        Some(m) => Turn::Done(Err(m)),
                        None => DispatchCall::answered(answer(call, &settings)),
                    }
                } else {
                    Turn::Done(Err("Invalid arguments: ".to_owned()))
                },
                other => Turn::Done(
                    Err(glue("Invalid arguments: ", other.message().as_str())),
                ),
            },
            DispatchCall::Answering(c) => DispatchCall::answered(c.resume(reply)),
        }
    }
}

/// Begins one call of a batch.
pub fn dispatch(
    call: BatchCall,
    has_client: bool,
    project_path: Option<String>,
    settings: Settings,
) -> (t: Turn<DispatchCall, Result<ToolOutcome, String>>)
    ensures
        begins(
            t,
            dispatch_dialogue(
                call@.tool_name,
                call@.arguments,
                has_client,
                opt_text(project_path),
                settings@,
            ),
        ),
{
    let name = call.tool_name.as_str();
    if same_text(name, "lean_batch") {
        return Turn::Done(Err("lean_batch cannot call itself recursively.".to_owned()));
    }
    match find_tool(name) {
        Some(tool) => Turn::Ask(
            Request::Arguments { tool, arguments: call.arguments },
            DispatchCall::Reading { tool, has_client, project: project_path, settings },
        ),
        None => Turn::Done(Err(glue("Unknown tool: ", name))),
    }
}

// ---------------------------------------------------------------------------
// All calls
// ---------------------------------------------------------------------------

/// One of the calls that are to be run at once.
pub struct BatchItem {
    /// The tool that was asked for.
    pub tool_name: String,
    /// The first move of the call.
    pub turn: Turn<DispatchCall, Result<ToolOutcome, String>>,
}

/// Whether an item is the first move of a call.
pub open spec fn begins_call(
    item: BatchItem,
    call: BatchCallView,
    has_client: bool,
    project: Option<Seq<char>>,
    s: SettingsView,
) -> bool {
    item.tool_name@ == call.tool_name && exists|id: Seq<char>|
        is_uuid(id) && #[trigger] begins(
            item.turn,
            dispatch_dialogue(
                call.tool_name,
                call.arguments,
                has_client,
                project,
                settings_for(s, id),
            ),
        )
}

/// Whether some items are the first moves of some calls, one for each and in their
/// order.
pub open spec fn begins_batch(
    items: Seq<BatchItem>,
    calls: Seq<BatchCallView>,
    has_client: bool,
    project: Option<Seq<char>>,
    s: SettingsView,
) -> bool {
    &&& items.len() == calls.len()
    &&& forall|i: int|
        0 <= i < items.len() ==> begins_call(
            #[trigger] items[i],
            calls[i],
            has_client,
            project,
            s,
        )
}

/// A call of a batch begins as it does in a batch of its own, whatever the other
/// calls are.
pub proof fn lemma_calls_apart(
    items: Seq<BatchItem>,
    calls: Seq<BatchCallView>,
    has_client: bool,
    project: Option<Seq<char>>,
    s: SettingsView,
    i: int,
)
    requires
        begins_batch(items, calls, has_client, project, s),
        0 <= i < calls.len(),
    ensures
        items[i].tool_name@ == calls[i].tool_name,
        begins_batch(seq![items[i]], seq![calls[i]], has_client, project, s),
{
    assert(begins_call(items[i], calls[i], has_client, project, s));
}

/// Begins all calls of a batch, each on its own and in their order.
pub fn handle_batch(
    calls: Vec<BatchCall>,
    has_client: bool,
    project_path: Option<&str>,
    settings: &Settings,
) -> (r: Vec<BatchItem>)
    ensures
        begins_batch(
            r@,
            all_views(calls@),
            has_client,
            opt_str(project_path),
            settings@,
        ),
{
    let mut out: Vec<BatchItem> = Vec::new();
    for call in it: calls
        invariant
            out@.len() == it.index(),
            forall|i: int|
                0 <= i < out@.len() ==> begins_call(
                    #[trigger] out@[i],
                    it.seq()[i]@,
                    has_client,
                    opt_str(project_path),
                    settings@,
                ),
    {
        let project = match project_path {
            Some(p) => Some(p.to_owned()),
            None => None,
        };
        let tool_name = call.tool_name.clone();
        let own = settings.for_another_call();
        let turn = dispatch(call, has_client, project, own);
        let item = BatchItem { tool_name, turn };
        proof {
            assert(is_uuid(own@.id) && begins(
                item.turn,
                dispatch_dialogue(
                    call@.tool_name,
                    call@.arguments,
                    has_client,
                    opt_str(project_path),
                    settings_for(settings@, own@.id),
                ),
            ));
        }
        out.push(item);
    }
    out
}

/// What is told of one call.
pub open spec fn settled(
    name: Seq<char>,
    answer: Result<JsonView, Seq<char>>,
) -> BatchCallResultView {
    match answer {
        Ok(v) => BatchCallResultView {
            tool_name: name,
            result: Some(v),
            is_error: false,
            error: None,
        },
        Err(m) => BatchCallResultView {
            tool_name: name,
            result: None,
            is_error: true,
            error: Some(m),
        },
    }
}

/// What an answer in JSON says.
pub open spec fn json_answer(a: Result<Json, String>) -> Result<JsonView, Seq<char>> {
    match a {
        Ok(v) => Ok(v@),
        Err(m) => Err(m@),
    }
}

/// What is told of one call.
pub fn settle(tool_name: String, answer: Result<Json, String>) -> (r: BatchCallResult)
    ensures
        r@ == settled(tool_name@, json_answer(answer)),
{
    match answer {
        Ok(v) => BatchCallResult { tool_name, result: Some(v), is_error: false, error: None },
        Err(m) => BatchCallResult { tool_name, result: None, is_error: true, error: Some(m) },
    }
}

/// The names and the answers of some calls.
pub open spec fn answers_view(answers: Seq<(String, Result<Json, String>)>) -> Seq<
    (Seq<char>, Result<JsonView, Seq<char>>),
> {
    answers.map_values(|a: (String, Result<Json, String>)| (a.0@, json_answer(a.1)))
}

/// What is told of a batch: its answers, in the order of its calls.
pub open spec fn told_of(answers: Seq<(Seq<char>, Result<JsonView, Seq<char>>)>) -> Seq<
    BatchCallResultView,
> {
    answers.map_values(|a: (Seq<char>, Result<JsonView, Seq<char>>)| settled(a.0, a.1))
}

/// What is told of a batch: its answers, in the order of its calls.
pub fn gather(answers: Vec<(String, Result<Json, String>)>) -> (r: BatchResult)
    ensures
        r@.items == told_of(answers_view(answers@)),
{
    let mut items: Vec<BatchCallResult> = Vec::new();
    for a in it: answers
        invariant
            items@.len() == it.index(),
            forall|i: int|
                0 <= i < items@.len() ==> (#[trigger] items@[i])@ == settled(
                    it.seq()[i].0@,
                    json_answer(it.seq()[i].1),
                ),
    {
        let (name, answer) = a;
        items.push(settle(name, answer));
    }
    let r = BatchResult { items };
    proof {
        assert forall|i: int| 0 <= i < answers@.len() implies #[trigger] r@.items[i] == told_of(
            answers_view(answers@),
        )[i] by {
            assert(r@.items[i] == items@[i]@);
        }
        assert(r@.items =~= told_of(answers_view(answers@)));
    }
    r
}

/// Of each call of a batch is told in its place and under its name, and either what
/// was found or why nothing was: the same as in a batch of its own.
pub proof fn lemma_each_call_told(
    answers: Seq<(Seq<char>, Result<JsonView, Seq<char>>)>,
    i: int,
)
    requires
        0 <= i < answers.len(),
    ensures
        told_of(answers).len() == answers.len(),
        told_of(answers)[i].tool_name == answers[i].0,
        told_of(answers)[i].is_error <==> answers[i].1 is Err,
        told_of(answers)[i].result is Some <==> answers[i].1 is Ok,
        told_of(answers)[i].error is Some <==> answers[i].1 is Err,
        answers[i].1 matches Ok(v) ==> told_of(answers)[i].result == Some(v),
        answers[i].1 matches Err(m) ==> told_of(answers)[i].error == Some(m),
        told_of(seq![answers[i]]) == seq![told_of(answers)[i]],
{
    assert(told_of(seq![answers[i]]) =~= seq![told_of(answers)[i]]);
}

/// A batch never begins a batch: the call ends at once, nothing is asked for, and
/// the error says that the call would be recursive.
pub proof fn lemma_no_recursion(
    arguments: JsonView,
    has_client: bool,
    project: Option<Seq<char>>,
    s: SettingsView,
)
    ensures
        dispatch_dialogue("lean_batch"@, arguments, has_client, project, s) == Dialogue::Finish(
            Err::<crate::tools::toolbox::OutcomeView, Seq<char>>(
                "lean_batch cannot call itself recursively."@,
            ),
        ),
        contains_of("lean_batch cannot call itself recursively."@, "recursively"@),
{
    reveal_strlit("lean_batch cannot call itself recursively.");
    reveal_strlit("recursively");
    let s = "lean_batch cannot call itself recursively."@;
    assert(s.subrange(30, 41) =~= "recursively"@);
    assert(occurs_at(s, "recursively"@, 30));
}

/// Without a language server a tool that works with one asks for nothing but its
/// arguments, and says what is missing.
pub proof fn lemma_no_client_no_work(
    name: Seq<char>,
    arguments: JsonView,
    project: Option<Seq<char>>,
    s: SettingsView,
    call: ToolCall,
)
    requires
        name != "lean_batch"@,
        tool_named(name) == Some(tool_of(call)),
        wants_client(tool_of(call)),
    ensures
        ({
            let d = dispatch_dialogue(name, arguments, false, project, s);
            let rs = seq![ReplyView::Arguments(call)];
            &&& d.requests(rs).len() == 1
            &&& d.after(rs) == Dialogue::Finish(
                Err::<crate::tools::toolbox::OutcomeView, Seq<char>>(no_client()),
            )
        }),
{
    let d = dispatch_dialogue(name, arguments, false, project, s);
    let rs = seq![ReplyView::Arguments(call)];
    reveal_with_fuel(Dialogue::requests, 3);
    reveal_with_fuel(Dialogue::after, 3);
    assert(rs.skip(1).len() == 0);
    assert(rs[0] == ReplyView::Arguments(call));
}

} // verus!
