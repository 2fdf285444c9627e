//! What a tool asks of its surroundings and what it is told.
//!
//! A tool never waits for anything itself. It is a value that says what it
//! asks for next; whoever runs it performs the request and hands the reply
//! back, until the tool says that it is done. A [`Dialogue`] is the
//! mathematical model of such a tool: all the requests that it makes, for
//! every reply that it may get, and its outcome.
use crate::error::{ErrorView, LeanToolError};
use crate::json::{value_content, views, Json, JsonView};
use crate::models::{
    all_views, opt_of, opt_text, GoalDiffResult, GoalDiffResultView, SnippetRun, SnippetRunView,
};
use crate::text::texts;
use crate::tools::toolbox::{Tool, ToolCall};
use vstd::prelude::*;

verus! {

/// What a tool asks for.
#[derive(Debug, PartialEq, Eq)]
pub enum Request {
    /// Open a file in the language server, if it is not open yet.
    OpenFile { path: String },
    /// Open a file in the language server anew.
    ReopenFile { path: String },
    /// The content of an open file.
    FileContent { path: String },
    /// Apply one change to an open file.
    UpdateFile { path: String, change: Json },
    /// Replace the whole content of an open file.
    ReplaceContent { path: String, content: String },
    /// Close a file in the language server.
    CloseFile { path: String },
    /// The diagnostics of a file, of the lines from `start_line` to `end_line`
    /// (from 0) where they are given; `bounded` where the wait is cut off once
    /// the server has been silent for 15 seconds.
    Diagnostics { path: String, start_line: Option<u32>, end_line: Option<u32>, bounded: bool },
    /// The diagnostics of a file with their embedded widgets.
    InteractiveDiagnostics { path: String, start_line: Option<u32>, end_line: Option<u32> },
    /// The goals at a position (from 0).
    Goal { path: String, line: u32, column: u32 },
    /// The expected type at a position (from 0).
    TermGoal { path: String, line: u32, column: u32 },
    /// What is known of the symbol at a position (from 0).
    Hover { path: String, line: u32, column: u32 },
    /// The completions at a position (from 0).
    Completions { path: String, line: u32, column: u32 },
    /// Where the symbol at a position (from 0) is declared.
    Declarations { path: String, line: u32, column: u32 },
    /// Where the symbol at a position (from 0) is used.
    References { path: String, line: u32, column: u32, include_declaration: bool },
    /// The symbols that a file declares.
    Symbols { path: String },
    /// The code actions for a range (from 0).
    CodeActions {
        path: String,
        from_line: u32,
        from_column: u32,
        to_line: u32,
        to_column: u32,
    },
    /// The edits of a code action that came without them.
    ResolveAction { action: Json },
    /// The widgets at a position (from 0).
    Widgets { path: String, line: u32, column: u32 },
    /// The source of a widget.
    WidgetSource { path: String, line: u32, column: u32, hash: String },
    /// Make a directory below the project's root, unless it is there.
    MakeDirectory { path: String },
    /// Write a file below the project's root.
    WriteFile { path: String, content: String },
    /// Remove a file below the project's root.
    RemoveFile { path: String },
    /// Read a file from disk; a relative path counts from the project's root.
    ReadFile { path: String },
    /// Read a file from disk; a relative path counts from the working directory.
    ReadPath { path: String },
    /// The path of a file as the file system has it; a relative path counts from the
    /// project's root.
    FullPath { path: String },
    /// The content of a file of source text, wherever it is.
    SourceText { path: String },
    /// The position (from 0) where a symbol first stands in a text.
    FindSymbol { content: String, symbol: String },
    /// The paths that some URIs stand for.
    UriPaths { uris: Vec<String> },
    /// The names of completion kinds.
    KindNames { kinds: Vec<Option<i32>> },
    /// The names of severities.
    SeverityNames { severities: Vec<i32> },
    /// What changed between two lists of goals.
    DiffGoals { before: Vec<String>, after: Vec<String> },
    /// Run each snippet in the REPL after some code.
    RunSnippets { base_code: String, snippets: Vec<String> },
    /// Run a program in the project's root.
    RunCommand { program: String, args: Vec<String> },
    /// Run a program in the project's root for no more than some seconds, which
    /// are given in words. Its last argument is the path of a file below the root.
    RunLimited { program: String, args: Vec<String>, file: String, seconds: String },
    /// The words that tell a user of an error.
    ErrorText { error: LeanToolError },
    /// Send a value to a web service.
    PostJson { url: String, body: Json },
    /// Send a query to a web service.
    GetJson { url: String, pairs: Vec<(String, String)> },
    /// No more than `limit` declarations below a directory, or below the project's
    /// root where none is given, that a query finds.
    LocalSearch { query: String, limit: usize, root: Option<String> },
    /// The root of the Lean project that holds a file, or that holds the working
    /// directory where none is given.
    DetectProject { from: Option<String> },
    /// Take a directory as the project's root in all that follows, with its
    /// language server where `client` says so. The server is started unless it
    /// runs; the directory is taken also where the server cannot be started.
    EnterProject { project: String, client: bool },
    /// The arguments of a tool, from a JSON value.
    Arguments { tool: Tool, arguments: Json },
    /// Cancel a background task, if there is one with this name.
    CancelTask { task_id: String },
    /// Forget the background tasks that ended long ago.
    ForgetTasks,
    /// What has become of a background task, if there is one with this name.
    TaskSnapshot { task_id: String },
}

/// What a [`Request`] asks for.
pub enum RequestView {
    OpenFile { path: Seq<char> },
    ReopenFile { path: Seq<char> },
    FileContent { path: Seq<char> },
    UpdateFile { path: Seq<char>, change: JsonView },
    ReplaceContent { path: Seq<char>, content: Seq<char> },
    CloseFile { path: Seq<char> },
    Diagnostics {
        path: Seq<char>,
        start_line: Option<u32>,
        end_line: Option<u32>,
        bounded: bool,
    },
    InteractiveDiagnostics { path: Seq<char>, start_line: Option<u32>, end_line: Option<u32> },
    Goal { path: Seq<char>, line: u32, column: u32 },
    TermGoal { path: Seq<char>, line: u32, column: u32 },
    Hover { path: Seq<char>, line: u32, column: u32 },
    Completions { path: Seq<char>, line: u32, column: u32 },
    Declarations { path: Seq<char>, line: u32, column: u32 },
    References { path: Seq<char>, line: u32, column: u32, include_declaration: bool },
    Symbols { path: Seq<char> },
    CodeActions {
        path: Seq<char>,
        from_line: u32,
        from_column: u32,
        to_line: u32,
        to_column: u32,
    },
    ResolveAction { action: JsonView },
    Widgets { path: Seq<char>, line: u32, column: u32 },
    WidgetSource { path: Seq<char>, line: u32, column: u32, hash: Seq<char> },
    MakeDirectory { path: Seq<char> },
    WriteFile { path: Seq<char>, content: Seq<char> },
    RemoveFile { path: Seq<char> },
    ReadFile { path: Seq<char> },
    ReadPath { path: Seq<char> },
    FullPath { path: Seq<char> },
    SourceText { path: Seq<char> },
    FindSymbol { content: Seq<char>, symbol: Seq<char> },
    UriPaths { uris: Seq<Seq<char>> },
    KindNames { kinds: Seq<Option<i32>> },
    SeverityNames { severities: Seq<i32> },
    DiffGoals { before: Seq<Seq<char>>, after: Seq<Seq<char>> },
    RunSnippets { base_code: Seq<char>, snippets: Seq<Seq<char>> },
    RunCommand { program: Seq<char>, args: Seq<Seq<char>> },
    RunLimited {
        program: Seq<char>,
        args: Seq<Seq<char>>,
        file: Seq<char>,
        seconds: Seq<char>,
    },
    ErrorText { error: ErrorView },
    PostJson { url: Seq<char>, body: JsonView },
    GetJson { url: Seq<char>, pairs: Seq<(Seq<char>, Seq<char>)> },
    LocalSearch { query: Seq<char>, limit: usize, root: Option<Seq<char>> },
    DetectProject { from: Option<Seq<char>> },
    EnterProject { project: Seq<char>, client: bool },
    Arguments { tool: Tool, arguments: JsonView },
    CancelTask { task_id: Seq<char> },
    ForgetTasks,
    TaskSnapshot { task_id: Seq<char> },
}

/// What some pairs of strings say.
pub open spec fn pair_texts(v: Seq<(String, String)>) -> Seq<(Seq<char>, Seq<char>)> {
    v.map_values(|p: (String, String)| (p.0@, p.1@))
}

impl View for Request {
    type V = RequestView;

    open spec fn view(&self) -> RequestView {
        match *self {
            Request::OpenFile { path } => RequestView::OpenFile { path: path@ },
            Request::ReopenFile { path } => RequestView::ReopenFile { path: path@ },
            Request::FileContent { path } => RequestView::FileContent { path: path@ },
            Request::UpdateFile { path, change } => RequestView::UpdateFile {
                path: path@,
                change: change@,
            },
            Request::ReplaceContent { path, content } => RequestView::ReplaceContent {
                path: path@,
                content: content@,
            },
            Request::CloseFile { path } => RequestView::CloseFile { path: path@ },
            Request::Diagnostics { path, start_line, end_line, bounded } => {
                RequestView::Diagnostics { path: path@, start_line, end_line, bounded }
            },
            Request::InteractiveDiagnostics { path, start_line, end_line } =>
                RequestView::InteractiveDiagnostics { path: path@, start_line, end_line },
            Request::Goal { path, line, column } => RequestView::Goal { path: path@, line, column },
            Request::TermGoal { path, line, column } => RequestView::TermGoal {
                path: path@,
                line,
                column,
            },
            Request::Hover {
                path,
                line,
                column } => RequestView::Hover { path: path@,
                line,
                column,
            },
            Request::Completions { path, line, column } => RequestView::Completions {
                path: path@,
                line,
                column,
            },
            Request::Declarations { path, line, column } => RequestView::Declarations {
                path: path@,
                line,
                column,
            },
            Request::References { path, line, column, include_declaration } =>
                RequestView::References { path: path@, line, column, include_declaration },
            Request::Symbols { path } => RequestView::Symbols { path: path@ },
            Request::CodeActions { path, from_line, from_column, to_line, to_column } =>
                RequestView::CodeActions {
                path: path@,
                from_line,
                from_column,
                to_line,
                to_column,
            },
            Request::ResolveAction { action } => RequestView::ResolveAction { action: action@ },
            Request::Widgets { path, line, column } => RequestView::Widgets {
                path: path@,
                line,
                column,
            },
            Request::WidgetSource { path, line, column, hash } => RequestView::WidgetSource {
                path: path@,
                line,
                column,
                hash: hash@,
            },
            Request::MakeDirectory { path } => RequestView::MakeDirectory { path: path@ },
            Request::WriteFile { path, content } => RequestView::WriteFile {
                path: path@,
                content: content@,
            },
            Request::RemoveFile { path } => RequestView::RemoveFile { path: path@ },
            Request::ReadFile { path } => RequestView::ReadFile { path: path@ },
            Request::ReadPath { path } => RequestView::ReadPath { path: path@ },
            Request::FullPath { path } => RequestView::FullPath { path: path@ },
            Request::SourceText { path } => RequestView::SourceText { path: path@ },
            Request::FindSymbol { content, symbol } => RequestView::FindSymbol {
                content: content@,
                symbol: symbol@,
            },
            Request::UriPaths { uris } => RequestView::UriPaths { uris: texts(uris@) },
            Request::KindNames { kinds } => RequestView::KindNames { kinds: kinds@ },
            Request::SeverityNames { severities } => RequestView::SeverityNames {
                severities: severities@,
            },
            Request::DiffGoals { before, after } => RequestView::DiffGoals {
                before: texts(before@),
                after: texts(after@),
            },
            Request::RunSnippets { base_code, snippets } => RequestView::RunSnippets {
                base_code: base_code@,
                snippets: texts(snippets@),
            },
            Request::RunCommand { program, args } => RequestView::RunCommand {
                program: program@,
                args: texts(args@),
            },
            Request::RunLimited { program, args, file, seconds } => RequestView::RunLimited {
                program: program@,
                args: texts(args@),
                file: file@,
                seconds: seconds@,
            },
            Request::ErrorText { error } => RequestView::ErrorText { error: error@ },
            Request::PostJson { url, body } => RequestView::PostJson { url: url@, body: body@ },
            Request::GetJson { url, pairs } => RequestView::GetJson {
                url: url@,
                pairs: pair_texts(pairs@),
            },
            Request::LocalSearch { query, limit, root } => RequestView::LocalSearch {
                query: query@,
                limit,
                root: opt_text(root),
            },
            Request::DetectProject { from } => RequestView::DetectProject { from: opt_text(from) },
            Request::EnterProject { project, client } => RequestView::EnterProject {
                project: project@,
                client,
            },
            Request::Arguments { tool, arguments } => RequestView::Arguments {
                tool,
                arguments: arguments@,
            },
            Request::CancelTask { task_id } => RequestView::CancelTask { task_id: task_id@ },
            Request::ForgetTasks => RequestView::ForgetTasks,
            Request::TaskSnapshot { task_id } => RequestView::TaskSnapshot { task_id: task_id@ },
        }
    }
}

/// What a web service answers.
#[derive(Debug, PartialEq, Eq)]
pub enum WebReply {
    /// No request could be made, and why.
    NoClient(String),
    /// The request could not be sent, or no answer came, and why.
    NotSent(String),
    /// The service refused the request, with this status.
    Refused(String),
    /// The answer is no JSON, and why.
    NotJson(String),
    /// The answer.
    Answer(serde_json::Value),
}

/// What a [`WebReply`] says.
pub enum WebReplyView {
    NoClient(Seq<char>),
    NotSent(Seq<char>),
    Refused(Seq<char>),
    NotJson(Seq<char>),
    Answer(JsonView),
}

impl View for WebReply {
    type V = WebReplyView;

    open spec fn view(&self) -> WebReplyView {
        match *self {
            WebReply::NoClient(s) => WebReplyView::NoClient(s@),
            WebReply::NotSent(s) => WebReplyView::NotSent(s@),
            WebReply::Refused(s) => WebReplyView::Refused(s@),
            WebReply::NotJson(s) => WebReplyView::NotJson(s@),
            WebReply::Answer(v) => WebReplyView::Answer(value_content(v)),
        }
    }
}

/// What a tool is told.
#[derive(Debug, PartialEq, Eq)]
pub enum Reply {
    /// The request was carried out.
    Done,
    /// A text.
    Text(String),
    /// A text, or none.
    MaybeText(Option<String>),
    /// Some texts.
    Texts(Vec<String>),
    /// Some texts, each of which may be missing.
    Names(Vec<Option<String>>),
    /// A JSON value.
    Value(Json),
    /// A JSON value, or none.
    MaybeValue(Option<Json>),
    /// Some JSON values.
    Values(Vec<Json>),
    /// A position from 0, or none.
    Position(Option<(usize, usize)>),
    /// What changed between two lists of goals.
    Diff(GoalDiffResult),
    /// What the REPL says of each snippet.
    Snippets(Vec<SnippetRun>),
    /// A program ended: whether it succeeded, its exit code where it has one, and
    /// what it wrote.
    Command { success: bool, code: Option<i32>, stdout: String, stderr: String },
    /// What a web service answers.
    Web(WebReply),
    /// What a tool is asked.
    Arguments(ToolCall),
    /// Whether it was so.
    Flag(bool),
    /// The request failed, with this message.
    Failed(String),
    /// A program was started, and then could not be followed to its end, with
    /// this message.
    Interrupted(String),
    /// The time that the tool allows was over before the reply came.
    TimedOut,
}

/// What a [`Reply`] says.
pub enum ReplyView {
    Done,
    Text(Seq<char>),
    MaybeText(Option<Seq<char>>),
    Texts(Seq<Seq<char>>),
    Names(Seq<Option<Seq<char>>>),
    Value(JsonView),
    MaybeValue(Option<JsonView>),
    Values(Seq<JsonView>),
    Position(Option<(usize, usize)>),
    Diff(GoalDiffResultView),
    Snippets(Seq<SnippetRunView>),
    Command { success: bool, code: Option<i32>, stdout: Seq<char>, stderr: Seq<char> },
    Web(WebReplyView),
    Arguments(ToolCall),
    Flag(bool),
    Failed(Seq<char>),
    Interrupted(Seq<char>),
    TimedOut,
}

/// The texts of some optional strings.
pub open spec fn name_texts(v: Seq<Option<String>>) -> Seq<Option<Seq<char>>> {
    v.map_values(|o: Option<String>| opt_text(o))
}

impl View for Reply {
    type V = ReplyView;

    open spec fn view(&self) -> ReplyView {
        match *self {
            Reply::Done => ReplyView::Done,
            Reply::Text(s) => ReplyView::Text(s@),
            Reply::MaybeText(s) => ReplyView::MaybeText(opt_text(s)),
            Reply::Texts(v) => ReplyView::Texts(texts(v@)),
            Reply::Names(v) => ReplyView::Names(name_texts(v@)),
            Reply::Value(j) => ReplyView::Value(j@),
            Reply::MaybeValue(j) => ReplyView::MaybeValue(opt_of(j)),
            Reply::Values(v) => ReplyView::Values(views(v@)),
            Reply::Position(p) => ReplyView::Position(p),
            Reply::Diff(d) => ReplyView::Diff(d@),
            Reply::Snippets(v) => ReplyView::Snippets(all_views(v@)),
            Reply::Command { success, code, stdout, stderr } => ReplyView::Command {
                success,
                code,
                stdout: stdout@,
                stderr: stderr@,
            },
            Reply::Web(w) => ReplyView::Web(w@),
            Reply::Arguments(call) => ReplyView::Arguments(call),
            Reply::Flag(b) => ReplyView::Flag(b),
            Reply::Failed(s) => ReplyView::Failed(s@),
            Reply::Interrupted(s) => ReplyView::Interrupted(s@),
            Reply::TimedOut => ReplyView::TimedOut,
        }
    }
}

/// A tool at work: it asks for something and goes on with the reply, or it has
/// come to its outcome.
pub enum Dialogue<O> {
    Ask(RequestView, spec_fn(ReplyView) -> Dialogue<O>),
    Finish(O),
}

/// How a tool goes on with the reply that it waits for.
pub type Waiting<O> = spec_fn(ReplyView) -> Dialogue<O>;

impl<O> Dialogue<O> {
    /// The tool after some replies, one after the other.
    pub open spec fn after(self, rs: Seq<ReplyView>) -> Dialogue<O>
        decreases rs.len(),
    {
        match self {
            Dialogue::Ask(_, k) => if rs.len() == 0 {
                self
            } else {
                k(rs[0]).after(rs.skip(1))
            },
            Dialogue::Finish(_) => self,
        }
    }

    /// What the tool asks for, one request after the other, when it gets
    /// these replies.
    pub open spec fn requests(self, rs: Seq<ReplyView>) -> Seq<RequestView>
        decreases rs.len(),
    {
        match self {
            Dialogue::Ask(q, k) => if rs.len() == 0 {
                seq![q]
            } else {
                seq![q] + k(rs[0]).requests(rs.skip(1))
            },
            Dialogue::Finish(_) => Seq::empty(),
        }
    }
}

/// A tool that first does all that `d` says and then goes on with its outcome.
pub open spec fn followed<O, P>(d: Dialogue<O>, f: spec_fn(O) -> Dialogue<P>) -> Dialogue<P>
    decreases d,
{
    match d {
        Dialogue::Ask(q, k) => Dialogue::Ask(q, |r: ReplyView| followed(k(r), f)),
        Dialogue::Finish(o) => f(o),
    }
}

/// The next move of a tool: a request together with the call that waits for
/// the reply, or the outcome.
pub enum Turn<C, O> {
    Ask(Request, C),
    Done(O),
}

/// What it means that a tool call waits for a reply.
pub trait Waits: Sized {
    /// What the call comes to.
    type Out;

    /// What an outcome says.
    type Said;

    /// What an outcome says.
    spec fn said(o: Self::Out) -> Self::Said;

    /// Whether the call is in a state that it can come to.
    spec fn valid(self) -> bool;

    /// How the call goes on with the reply.
    spec fn waiting(self) -> Waiting<Self::Said>;

    /// Whether the call can go on with the reply.
    spec fn admits(self, r: ReplyView) -> bool;
}

/// Whether a move of a tool is the first of a dialogue.
pub open spec fn begins<C: Waits>(t: Turn<C, C::Out>, d: Dialogue<C::Said>) -> bool {
    match t {
        Turn::Ask(q, c) => c.valid() && d == Dialogue::Ask(q@, c.waiting()),
        Turn::Done(o) => d == Dialogue::Finish(C::said(o)),
    }
}

/// A tool call that waits for a reply.
pub trait Call: Waits {
    /// Whether the call can go on with the reply.
    fn accepts(&self, reply: &Reply) -> (r: bool)
        requires
            self.valid(),
        ensures
            r == self.admits(reply@),
    ;

    /// Goes on with the reply.
    fn resume(self, reply: Reply) -> (t: Turn<Self, Self::Out>)
        requires
            self.valid(),
            self.admits(reply@),
        ensures
            begins(t, (self.waiting())(reply@)),
    ;
}

/// How a tool goes on that first does all that `k` says and then goes on with
/// its outcome.
pub open spec fn waiting_first<O, P>(k: Waiting<O>, f: spec_fn(O) -> Dialogue<P>) -> Waiting<P> {
    |r: ReplyView| followed(k(r), f)
}

/// A tool that first does what asks for `q` asks for `q` itself.
pub proof fn lemma_followed<O, P>(q: RequestView, k: Waiting<O>, f: spec_fn(O) -> Dialogue<P>)
    ensures
        followed(Dialogue::Ask(q, k), f) == Dialogue::Ask(q, waiting_first(k, f)),
{
    assert(followed(Dialogue::Ask(q, k), f)->Ask_1 =~= waiting_first(k, f));
}

// ---------------------------------------------------------------------------
// What holds however a tool is replied to
// ---------------------------------------------------------------------------

/// Whether a tool ends well, however it is replied to. `s` is what has become of
/// its surroundings, `step` what a request and its reply make of them, and `good`
/// what has to hold in the end, of the surroundings and of the outcome.
pub open spec fn ends_well<O, S>(
    d: Dialogue<O>,
    step: spec_fn(S, RequestView, ReplyView) -> S,
    s: S,
    good: spec_fn(S, O) -> bool,
) -> bool
    decreases d,
{
    match d {
        Dialogue::Ask(q, k) => forall|r: ReplyView|
            ends_well(#[trigger] k(r), step, step(s, q, r), good),
        Dialogue::Finish(o) => good(s, o),
    }
}

/// What has become of a tool's surroundings after some replies.
pub open spec fn state_after<O, S>(
    d: Dialogue<O>,
    step: spec_fn(S, RequestView, ReplyView) -> S,
    s: S,
    rs: Seq<ReplyView>,
) -> S
    decreases rs.len(),
{
    match d {
        Dialogue::Ask(q, k) => if rs.len() == 0 {
            s
        } else {
            state_after(k(rs[0]), step, step(s, q, rs[0]), rs.skip(1))
        },
        Dialogue::Finish(_) => s,
    }
}

/// A tool that ends well does so with any replies that bring it to its end.
pub proof fn lemma_ends_well<O, S>(
    d: Dialogue<O>,
    step: spec_fn(S, RequestView, ReplyView) -> S,
    s: S,
    good: spec_fn(S, O) -> bool,
    rs: Seq<ReplyView>,
)
    requires
        ends_well(d, step, s, good),
    ensures
        d.after(rs) matches Dialogue::Finish(o) ==> good(state_after(d, step, s, rs), o),
    decreases rs.len(),
{
    match d {
        Dialogue::Ask(q, k) => if rs.len() > 0 {
            lemma_ends_well(k(rs[0]), step, step(s, q, rs[0]), good, rs.skip(1));
        },
        Dialogue::Finish(o) => {},
    }
}

/// A tool ends well that first does all that `d` says, if `d` ends where what
/// follows ends well.
pub proof fn lemma_followed_ends_well<O, P, S>(
    d: Dialogue<O>,
    f: spec_fn(O) -> Dialogue<P>,
    step: spec_fn(S, RequestView, ReplyView) -> S,
    s: S,
    middle: spec_fn(S, O) -> bool,
    good: spec_fn(S, P) -> bool,
)
    requires
        ends_well(d, step, s, middle),
        forall|s: S, o: O| #[trigger] middle(s, o) ==> ends_well(f(o), step, s, good),
    ensures
        ends_well(followed(d, f), step, s, good),
    decreases d,
{
    match d {
        Dialogue::Ask(q, k) => {
            lemma_followed(q, k, f);
            let next = waiting_first(k, f);
            assert forall|r: ReplyView|
                ends_well(#[trigger] next(r), step, step(s, q, r), good) by {
                assert(ends_well(k(r), step, step(s, q, r), middle));
                lemma_followed_ends_well(k(r), f, step, step(s, q, r), middle, good);
            }
        },
        Dialogue::Finish(o) => {
            assert(middle(s, o));
        },
    }
}

/// A tool that ends well in two ways ends well in any way that follows from both.
pub proof fn lemma_ends_both<O, S>(
    d: Dialogue<O>,
    step: spec_fn(S, RequestView, ReplyView) -> S,
    s: S,
    one: spec_fn(S, O) -> bool,
    two: spec_fn(S, O) -> bool,
    good: spec_fn(S, O) -> bool,
)
    requires
        ends_well(d, step, s, one),
        ends_well(d, step, s, two),
        forall|s: S, o: O| #[trigger] one(s, o) && two(s, o) ==> good(s, o),
    ensures
        ends_well(d, step, s, good),
    decreases d,
{
    match d {
        Dialogue::Ask(q, k) => {
            assert forall|r: ReplyView| ends_well(#[trigger] k(r), step, step(s, q, r), good) by {
                assert(ends_well(k(r), step, step(s, q, r), one));
                assert(ends_well(k(r), step, step(s, q, r), two));
                lemma_ends_both(k(r), step, step(s, q, r), one, two, good);
            }
        },
        Dialogue::Finish(o) => {
            assert(one(s, o));
        },
    }
}

/// Whether a tool asks for nothing but what is allowed, however it is replied to.
pub open spec fn asks_only<O>(d: Dialogue<O>, allowed: spec_fn(RequestView) -> bool) -> bool
    decreases d,
{
    match d {
        Dialogue::Ask(q, k) => allowed(q) && forall|r: ReplyView|
            asks_only(#[trigger] k(r), allowed),
        Dialogue::Finish(_) => true,
    }
}

/// A tool asks for nothing but what is allowed that first does all that `d` says,
/// if neither `d` nor what follows asks for more.
pub proof fn lemma_followed_asks_only<O, P>(
    d: Dialogue<O>,
    f: spec_fn(O) -> Dialogue<P>,
    allowed: spec_fn(RequestView) -> bool,
)
    requires
        asks_only(d, allowed),
        forall|o: O| asks_only(#[trigger] f(o), allowed),
    ensures
        asks_only(followed(d, f), allowed),
    decreases d,
{
    match d {
        Dialogue::Ask(q, k) => {
            lemma_followed(q, k, f);
            let next = waiting_first(k, f);
            assert forall|r: ReplyView| asks_only(#[trigger] next(r), allowed) by {
                lemma_followed_asks_only(k(r), f, allowed);
            }
        },
        Dialogue::Finish(o) => {},
    }
}

/// Each request that a tool makes is allowed.
pub proof fn lemma_asks_only<O>(
    d: Dialogue<O>,
    allowed: spec_fn(RequestView) -> bool,
    rs: Seq<ReplyView>,
)
    requires
        asks_only(d, allowed),
    ensures
        forall|i: int| 0 <= i < d.requests(rs).len() ==> allowed(#[trigger] d.requests(rs)[i]),
    decreases rs.len(),
{
    match d {
        Dialogue::Ask(q, k) => if rs.len() > 0 {
            let rest = k(rs[0]).requests(rs.skip(1));
            lemma_asks_only(k(rs[0]), allowed, rs.skip(1));
            assert forall|i: int| 0 <= i < d.requests(rs).len() implies allowed(
                #[trigger] d.requests(rs)[i],
            ) by {
                if i > 0 {
                    assert(d.requests(rs)[i] == rest[i - 1]);
                }
            }
        },
        Dialogue::Finish(_) => {},
    }
}

// ---------------------------------------------------------------------------
// What a reply brings
// ---------------------------------------------------------------------------

impl ReplyView {
    /// The message of a failure; empty where the reply is of an unexpected
    /// kind.
    pub open spec fn trouble(self) -> Seq<char> {
        match self {
            ReplyView::Failed(m) => m,
            _ => Seq::empty(),
        }
    }

    /// The names, some of which may be missing; none where the reply is of an
    /// unexpected kind.
    pub open spec fn names_told(self) -> Seq<Option<Seq<char>>> {
        match self {
            ReplyView::Names(v) => v,
            _ => Seq::empty(),
        }
    }

    /// The texts; none where the reply is of an unexpected kind.
    pub open spec fn texts_told(self) -> Seq<Seq<char>> {
        match self {
            ReplyView::Texts(v) => v,
            _ => Seq::empty(),
        }
    }
}

/// Name `i` of some names, where there is one.
pub open spec fn name_at(names: Seq<Option<Seq<char>>>, i: int) -> Option<Seq<char>> {
    if 0 <= i < names.len() {
        names[i]
    } else {
        None
    }
}

/// Text `i` of some texts, and the empty text where there is none.
pub open spec fn text_at(ts: Seq<Seq<char>>, i: int) -> Seq<char> {
    if 0 <= i < ts.len() {
        ts[i]
    } else {
        Seq::empty()
    }
}

/// Name `i` of some names, where there is one.
pub fn nth_name(names: &[Option<String>], i: usize) -> (r: Option<String>)
    ensures
        opt_text(r) == name_at(name_texts(names@), i as int),
{
    if i < names.len() {
        match &names[i] {
            Some(s) => Some(s.clone()),
            None => None,
        }
    } else {
        None
    }
}

/// Text `i` of some texts, and the empty text where there is none.
pub fn nth_text(ts: &[String], i: usize) -> (r: String)
    ensures
        r@ == text_at(texts(ts@), i as int),
{
    if i < ts.len() {
        ts[i].clone()
    } else {
        String::new()
    }
}

impl Reply {
    /// The message of a failure; empty where the reply is of an unexpected
    /// kind.
    pub fn message(self) -> (m: String)
        ensures
            m@ == self@.trouble(),
    {
        match self {
            Reply::Failed(m) => m,
            _ => String::new(),
        }
    }

    /// Nothing where the request was carried out, else the message of the
    /// failure.
    pub fn done(self) -> (r: Result<(), String>)
        ensures
            match r {
                Ok(_) => self@ is Done,
                Err(m) => !(self@ is Done) && m@ == self@.trouble(),
            },
    {
        match self {
            Reply::Done => Ok(()),
            Reply::Failed(m) => Err(m),
            _ => Err(String::new()),
        }
    }

    /// The text, or the message of the failure.
    pub fn text(self) -> (r: Result<String, String>)
        ensures
            match r {
                Ok(s) => self@ == ReplyView::Text(s@),
                Err(m) => !(self@ is Text) && m@ == self@.trouble(),
            },
    {
        match self {
            Reply::Text(s) => Ok(s),
            Reply::Failed(m) => Err(m),
            _ => Err(String::new()),
        }
    }

    /// The names, some of which may be missing; none where the reply is of an
    /// unexpected kind.
    pub fn names_told(self) -> (r: Vec<Option<String>>)
        ensures
            name_texts(r@) == self@.names_told(),
    {
        match self {
            Reply::Names(v) => v,
            _ => {
                let none: Vec<Option<String>> = Vec::new();
                proof {
                    assert(name_texts(none@) =~= Seq::empty());
                }
                none
            },
        }
    }

    /// The texts; none where the reply is of an unexpected kind.
    pub fn texts_told(self) -> (r: Vec<String>)
        ensures
            texts(r@) == self@.texts_told(),
    {
        match self {
            Reply::Texts(v) => v,
            _ => {
                let none: Vec<String> = Vec::new();
                proof {
                    assert(texts(none@) =~= Seq::empty());
                }
                none
            },
        }
    }

    /// The JSON value, or the message of the failure.
    pub fn value(self) -> (r: Result<Json, String>)
        ensures
            match r {
                Ok(v) => self@ == ReplyView::Value(v@),
                Err(m) => !(self@ is Value) && m@ == self@.trouble(),
            },
    {
        match self {
            Reply::Value(v) => Ok(v),
            Reply::Failed(m) => Err(m),
            _ => Err(String::new()),
        }
    }

    /// The JSON value, if any, or the message of the failure.
    pub fn maybe_value(self) -> (r: Result<Option<Json>, String>)
        ensures
            match r {
                Ok(v) => self@ == ReplyView::MaybeValue(opt_of(v)),
                Err(m) => !(self@ is MaybeValue) && m@ == self@.trouble(),
            },
    {
        match self {
            Reply::MaybeValue(v) => Ok(v),
            Reply::Failed(m) => Err(m),
            _ => Err(String::new()),
        }
    }

    /// The JSON values, or the message of the failure.
    pub fn values(self) -> (r: Result<Vec<Json>, String>)
        ensures
            match r {
                Ok(v) => self@ == ReplyView::Values(views(v@)),
                Err(m) => !(self@ is Values) && m@ == self@.trouble(),
            },
    {
        match self {
            Reply::Values(v) => Ok(v),
            Reply::Failed(m) => Err(m),
            _ => Err(String::new()),
        }
    }

    /// The texts, or the message of the failure.
    pub fn texts(self) -> (r: Result<Vec<String>, String>)
        ensures
            match r {
                Ok(v) => self@ == ReplyView::Texts(texts(v@)),
                Err(m) => !(self@ is Texts) && m@ == self@.trouble(),
            },
    {
        match self {
            Reply::Texts(v) => Ok(v),
            Reply::Failed(m) => Err(m),
            _ => Err(String::new()),
        }
    }
}

// ---------------------------------------------------------------------------
// Failures
// ---------------------------------------------------------------------------

/// The failure of a request, under the name of the operation.
pub open spec fn lsp_failure(operation: Seq<char>, message: Seq<char>) -> ErrorView {
    ErrorView::LspError { operation, message }
}

/// The failure of a request, under the name of the operation.
pub fn lsp_error(operation: &str, message: String) -> (r: LeanToolError)
    ensures
        r@ == lsp_failure(operation@, message@),
{
    LeanToolError::LspError { operation: operation.to_owned(), message }
}

} // verus!
