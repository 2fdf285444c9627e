//! `lean_run_code`: what the compiler says of a piece of code.
use crate::error::{result_view, ErrorView, LeanToolError};
use crate::ids::{fresh_id, is_uuid};
use crate::json::{
    int_at, int_member, items_member, text_member, text_or_empty, views, Json, JsonView,
};
use crate::lists::{lemma_filter_map_next, lemma_take_all, lemma_views_push};
use crate::models::{
    all_views, opt_text, DiagnosticMessage, DiagnosticMessageView, RunResult, RunResultView,
};
use crate::position::{from_one, full_range, full_range_of, one_based};
use crate::protocol::{
    begins, lsp_error, lsp_failure, Call, Dialogue, Reply, ReplyView, Request, RequestView, Turn,
    Waiting, Waits,
};
use crate::text::{
    chars_of, glue, glue3, lemma_split_behind, lemma_split_nonempty, lines, lines_of, same_text,
    split_of,
};
use crate::tools::{limited_code, prepend_max_heartbeats};
use crate::tools::multi_attempt::{severity_name, severity_text};
use vstd::prelude::*;
use vstd::string::*;

verus! {

// ---------------------------------------------------------------------------
// Messages
// ---------------------------------------------------------------------------

/// A number of 64 bits with a sign, to which another wraps around.
pub open spec fn wrapped(n: int) -> int {
    if n > i64::MAX {
        n - 0x1_0000_0000_0000_0000
    } else if n < i64::MIN {
        n + 0x1_0000_0000_0000_0000
    } else {
        n
    }
}

/// A line (from 1) of the code, for line `n` (from 0) of a file in which
/// `context` lines stand before the code.
pub open spec fn line_behind(n: int, context: usize) -> int {
    wrapped(wrapped(n - (context as i64)) + 1)
}

/// The message that a diagnostic of the language server stands for, in a file in
/// which `context` lines stand before the code; none where it has no range or
/// speaks of these lines.
pub open spec fn message_behind(d: JsonView, context: usize) -> Option<DiagnosticMessageView> {
    match full_range(d) {
        Some(r) => {
            let line = int_at(r, "start"@, "line"@, 0);
            if context > 0 && (line as usize) < context {
                None
            } else {
                Some(
                    DiagnosticMessageView {
                        severity: severity_text(
                            match int_member(d, "severity"@) {
                                Some(n) => n as i32,
                                None => 1,
                            },
                        ),
                        message: text_or_empty(text_member(d, "message"@)),
                        line: line_behind(line, context) as i64,
                        column: one_based(int_at(r, "start"@, "character"@, 0)) as i64,
                    },
                )
            }
        },
        None => None,
    }
}

/// The messages of the code.
pub open spec fn messages_behind(ds: Seq<JsonView>, context: usize) -> Seq<DiagnosticMessageView> {
    ds.filter_map(|d: JsonView| message_behind(d, context))
}

/// The messages of the code, in a file in which `context_lines` lines stand
/// before it.
pub fn to_diagnostic_messages(diagnostics: &[Json], context_lines: usize) -> (r: Vec<
    DiagnosticMessage,
>)
    ensures
        all_views(r@) == messages_behind(views(diagnostics@), context_lines),
{
    let mut items: Vec<DiagnosticMessage> = Vec::new();
    let ghost ds = views(diagnostics@);
    let ghost f = |d: JsonView| message_behind(d, context_lines);
    proof {
        assert(all_views(items@) =~= ds.take(0).filter_map(f));
    }
    for i in 0..diagnostics.len()
        invariant
            ds == views(diagnostics@),
            f == (|d: JsonView| message_behind(d, context_lines)),
            all_views(items@) == ds.take(i as int).filter_map(f),
    {
        let diag = &diagnostics[i];
        proof {
            lemma_filter_map_next(ds, f, i as int);
            assert(ds[i as int] == diag@);
        }
        if let Some(r) = full_range_of(diag) {
            let raw_line: i64 = r.int_at("start", "line");
            if !(context_lines > 0 && (raw_line as usize) < context_lines) {
                let severity: i32 = match diag.int_member("severity") {
                    Some(n) => n as i32,
                    None => 1,
                };
                let message = match diag.text_member("message") {
                    Some(s) => s.to_owned(),
                    None => String::new(),
                };
                let ghost before = items@;
                items.push(
                    DiagnosticMessage {
                        severity: severity_name(severity).to_owned(),
                        message,
                        line: raw_line.wrapping_sub(context_lines as i64).wrapping_add(1),
                        column: from_one(r.int_at("start", "character")),
                    },
                );
                proof {
                    lemma_views_push(before, items@.last());
                }
            }
        }
    }
    proof {
        lemma_take_all(ds);
    }
    items
}

/// A message of the code speaks of a line of the code, which it counts from 1.
pub proof fn lemma_line_in_code(d: JsonView, context: usize)
    requires
        full_range(d) matches Some(r) ==> 0 <= int_at(r, "start"@, "line"@, 0) <= usize::MAX,
        full_range(d) matches Some(r) ==> int_at(r, "start"@, "line"@, 0) < i64::MAX,
        context <= i64::MAX,
    ensures
        message_behind(d, context) matches Some(m) ==> full_range(d) is Some && m.line >= 1
            && m.line == int_at(full_range(d)->0, "start"@, "line"@, 0) - context + 1,
{
}

/// Whether no message is an error.
pub open spec fn no_errors(ms: Seq<DiagnosticMessageView>) -> bool {
    forall|i: int| 0 <= i < ms.len() ==> (#[trigger] ms[i]).severity != "error"@
}

/// Whether no message is an error.
fn error_free(ms: &[DiagnosticMessage]) -> (r: bool)
    ensures
        r == no_errors(all_views(ms@)),
{
    for i in 0..ms.len()
        invariant
            forall|j: int| 0 <= j < i ==> (#[trigger] all_views(ms@)[j]).severity != "error"@,
    {
        proof {
            assert(all_views(ms@)[i as int] == ms@[i as int]@);
        }
        if same_text(ms[i].severity.as_str(), "error") {
            return false;
        }
    }
    true
}

/// What the messages of the code come to.
pub open spec fn run_of(raw: JsonView, context: usize) -> RunResultView {
    let ds = match items_member(raw, "diagnostics"@) {
        Some(ds) => ds,
        None => Seq::empty(),
    };
    let ms = messages_behind(ds, context);
    RunResultView { success: no_errors(ms), diagnostics: ms }
}

/// What the messages of the code come to.
pub fn read_run(raw: &Json, context: usize) -> (r: RunResult)
    ensures
        r@ == run_of(raw@, context),
{
    let none: Vec<Json> = Vec::new();
    proof {
        assert(views(none@) =~= Seq::empty());
    }
    let ds = match raw.items_member("diagnostics") {
        Some(ds) => ds,
        None => &none,
    };
    let diagnostics = to_diagnostic_messages(ds, context);
    RunResult { success: error_free(&diagnostics), diagnostics }
}

// ---------------------------------------------------------------------------
// The tool
// ---------------------------------------------------------------------------

/// What `lean_run_code` comes to.
pub type RunSaid = Result<RunResultView, ErrorView>;

/// The path of a temporary file, below the project's root.
pub open spec fn snippet_path(id: Seq<char>) -> Seq<char> {
    ".lake/_mcp/_mcp_snippet_"@ + id + ".lean"@
}

/// After the file was removed.
pub open spec fn run_removed(res: RunSaid) -> Waiting<RunSaid> {
    |r: ReplyView| Dialogue::Finish(res)
}

/// After the file was closed.
pub open spec fn run_closed(path: Seq<char>, res: RunSaid) -> Waiting<RunSaid> {
    |r: ReplyView| Dialogue::Ask(RequestView::RemoveFile { path }, run_removed(res))
}

/// Closes and removes the file, whatever came of the code.
pub open spec fn run_clean(path: Seq<char>, res: RunSaid) -> Dialogue<RunSaid> {
    Dialogue::Ask(RequestView::CloseFile { path }, run_closed(path, res))
}

/// After the diagnostics came.
pub open spec fn run_diagnosed(path: Seq<char>, context: usize) -> Waiting<RunSaid> {
    |r: ReplyView|
        run_clean(
            path,
            match r {
                ReplyView::Value(raw) => Ok(run_of(raw, context)),
                _ => Err(lsp_failure("get_diagnostics"@, r.trouble())),
            },
        )
}

/// After the file was opened.
pub open spec fn run_opened(path: Seq<char>, context: usize) -> Waiting<RunSaid> {
    |r: ReplyView|
        if r is Done {
            Dialogue::Ask(
                RequestView::Diagnostics {
                    path,
                    start_line: None,
                    end_line: None,
                    bounded: true,
                },
                run_diagnosed(path, context),
            )
        } else {
            run_clean(path, Err(lsp_failure("open_file"@, r.trouble())))
        }
}

/// After the file was written.
pub open spec fn run_written(path: Seq<char>, context: usize) -> Waiting<RunSaid> {
    |r: ReplyView|
        if r is Done {
            Dialogue::Ask(RequestView::OpenFile { path }, run_opened(path, context))
        } else {
            Dialogue::Finish(
                Err(ErrorView::Other("Error writing code snippet: "@ + r.trouble())),
            )
        }
}

/// Writes the file; `context` lines of it stand before the code.
pub open spec fn run_write(path: Seq<char>, content: Seq<char>, context: usize) -> Dialogue<
    RunSaid,
> {
    Dialogue::Ask(RequestView::WriteFile { path, content }, run_written(path, context))
}

/// A file's content as it stands before some code: its last line is ended, so
/// that the code begins on a line of its own.
pub open spec fn context_above(context: Seq<char>) -> Seq<char> {
    if context.len() == 0 || context.last() == '\n' {
        context
    } else {
        context.push('\n')
    }
}

/// A file's content as it stands before some code.
fn context_text(context: &str) -> (r: String)
    ensures
        r@ == context_above(context@),
{
    let cs = chars_of(context);
    if cs.len() == 0 || cs[cs.len() - 1] == '\n' {
        return context.to_owned();
    }
    proof {
        reveal_strlit("\n");
        assert(context@ + "\n"@ =~= context@.push('\n'));
    }
    glue(context, "\n")
}

/// The lines of the code stand right behind those of the content before it: it is
/// the number of these by which the lines of messages are moved.
pub proof fn lemma_code_behind_context(context: Seq<char>, code: Seq<char>)
    ensures
        split_of(context_above(context) + code, '\n').skip(lines_of(context).len() as int)
            == split_of(code, '\n'),
{
    let above = context_above(context);
    let pieces = split_of(context, '\n');
    lemma_split_nonempty(context, '\n');
    lemma_split_behind(above, code, '\n');
    if context.len() > 0 && context.last() != '\n' {
        assert(above.drop_last() =~= context);
        assert(pieces.last().len() > 0);
    }
    let before = split_of(above, '\n').drop_last();
    assert(before.len() == lines_of(context).len());
    assert((before + split_of(code, '\n')).skip(before.len() as int) =~= split_of(code, '\n'));
}

/// After the path of the file that could not be read came: it is the one that the
/// error names.
pub open spec fn context_unread(context_path: Seq<char>, trouble: Seq<char>) -> Waiting<RunSaid> {
    |r: ReplyView|
        Dialogue::Finish(
            Err(
                ErrorView::Other(
                    "Error reading file_context '"@ + match r {
                        ReplyView::Text(full_path) => full_path,
                        _ => context_path,
                    } + "': "@ + trouble,
                ),
            ),
        )
}

/// After the file whose content stands before the code came, or not.
pub open spec fn context_read(path: Seq<char>, code: Seq<char>, context_path: Seq<char>) -> Waiting<
    RunSaid,
> {
    |r: ReplyView|
        match r {
            ReplyView::Text(context) => run_write(
                path,
                context_above(context) + code,
                lines_of(context).len() as usize,
            ),
            _ => Dialogue::Ask(
                RequestView::FullPath { path: context_path },
                context_unread(context_path, r.trouble()),
            ),
        }
}

/// What is run.
pub struct CodeView {
    /// The code.
    pub code: Seq<char>,
    /// The file whose content stands before it.
    pub context_path: Option<Seq<char>>,
    /// The limit on elaboration that the user wants.
    pub heartbeats: Option<Seq<char>>,
}

/// After the directory was made.
pub open spec fn run_made(path: Seq<char>, c: CodeView) -> Waiting<RunSaid> {
    |r: ReplyView|
        if r is Done {
            match c.context_path {
                Some(context_path) => Dialogue::Ask(
                    RequestView::ReadFile { path: context_path },
                    context_read(path, c.code, context_path),
                ),
                None => run_write(path, limited_code(c.code, c.heartbeats), 0),
            }
        } else {
            Dialogue::Finish(
                Err(ErrorView::Other("Error creating .lake/_mcp dir: "@ + r.trouble())),
            )
        }
}

/// The whole of `lean_run_code`, in the temporary file `path`. The limit on
/// elaboration is put before code that stands alone, not before a file's
/// content.
pub open spec fn run_dialogue(path: Seq<char>, c: CodeView) -> Dialogue<RunSaid> {
    Dialogue::Ask(RequestView::MakeDirectory { path: ".lake/_mcp"@ }, run_made(path, c))
}

/// `lean_run_code` at work.
pub enum RunCodeCall {
    /// Waits until the directory is made.
    Making {
        path: String,
        code: String,
        context_path: Option<String>,
        heartbeats: Option<String>,
    },
    /// Waits for the content that stands before the code.
    Reading { path: String, code: String, read_path: String },
    /// Waits for the path of the file that could not be read.
    Naming { read_path: String, trouble: String },
    /// Waits until the file is written.
    Writing { path: String, context: usize },
    /// Waits until the file is open.
    Opening { path: String, context: usize },
    /// Waits for the diagnostics.
    Diagnosing { path: String, context: usize },
    /// Waits until the file is closed.
    Closing { path: String, res: Result<RunResult, LeanToolError> },
    /// Waits until the file is removed.
    Removing { res: Result<RunResult, LeanToolError> },
}

impl Waits for RunCodeCall {
    type Out = Result<RunResult, LeanToolError>;

    type Said = RunSaid;

    open spec fn said(o: Self::Out) -> RunSaid {
        result_view(o)
    }

    open spec fn valid(self) -> bool {
        true
    }

    open spec fn waiting(self) -> Waiting<RunSaid> {
        match self {
            RunCodeCall::Making { path, code, context_path, heartbeats } => run_made(
                path@,
                CodeView {
                    code: code@,
                    context_path: opt_text(context_path),
                    heartbeats: opt_text(heartbeats),
                },
            ),
            RunCodeCall::Reading { path, code, read_path } => context_read(
                path@,
                code@,
                read_path@,
            ),
            RunCodeCall::Naming { read_path, trouble } => context_unread(read_path@, trouble@),
            RunCodeCall::Writing { path, context } => run_written(path@, context),
            RunCodeCall::Opening { path, context } => run_opened(path@, context),
            RunCodeCall::Diagnosing { path, context } => run_diagnosed(path@, context),
            RunCodeCall::Closing { path, res } => run_closed(path@, result_view(res)),
            RunCodeCall::Removing { res } => run_removed(result_view(res)),
        }
    }

    open spec fn admits(self, r: ReplyView) -> bool {
        true
    }
}

impl RunCodeCall {
    /// Writes the file.
    fn write(path: String, content: String, context: usize) -> (t: Turn<
        RunCodeCall,
        Result<RunResult, LeanToolError>,
    >)
        ensures
            begins(t, run_write(path@, content@, context)),
    {
        Turn::Ask(
            Request::WriteFile { path: path.clone(), content },
            RunCodeCall::Writing { path, context },
        )
    }

    /// Closes the file.
    fn clean(path: String, res: Result<RunResult, LeanToolError>) -> (t: Turn<
        RunCodeCall,
        Result<RunResult, LeanToolError>,
    >)
        ensures
            begins(t, run_clean(path@, result_view(res))),
    {
        Turn::Ask(
            Request::CloseFile { path: path.clone() },
            RunCodeCall::Closing { path, res },
        )
    }
}

impl Call for RunCodeCall {
    fn accepts(&self, reply: &Reply) -> (r: bool) {
        true
    }

    fn resume(self, reply: Reply) -> (t: Turn<Self, Self::Out>) {
        match self {
            RunCodeCall::Making { path, code, context_path, heartbeats } => match reply.done() {
                Ok(_) => match context_path {
                    Some(context_path) => Turn::Ask(
                        Request::ReadFile { path: context_path.clone() },
                        RunCodeCall::Reading { path, code, read_path: context_path },
                    ),
                    None => {
                        let setting = match &heartbeats {
                            Some(s) => Some(s.as_str()),
                            None => None,
                        };
                        let content = prepend_max_heartbeats(code.as_str(), setting);
                        RunCodeCall::write(path, content, 0)
                    },
                },
                Err(m) => Turn::Done(
                    Err(
                        LeanToolError::Other(
                            glue("Error creating .lake/_mcp dir: ", m.as_str()),
                        ),
                    ),
                ),
            },
            RunCodeCall::Reading { path, code, read_path } => match reply.text() {
                Ok(context) => {
                    let count: usize = lines(context.as_str()).len();
                    let above = context_text(context.as_str());
                    RunCodeCall::write(path, glue(above.as_str(), code.as_str()), count)
                },
                Err(m) => Turn::Ask(
                    Request::FullPath { path: read_path.clone() },
                    RunCodeCall::Naming { read_path, trouble: m },
                ),
            },
            RunCodeCall::Naming { read_path, trouble } => {
                let named = match reply {
                    Reply::Text(full_path) => full_path,
                    _ => read_path,
                };
                let mut s = glue3("Error reading file_context '", named.as_str(), "': ");
                s.append(trouble.as_str());
                Turn::Done(Err(LeanToolError::Other(s)))
            },
            RunCodeCall::Writing { path, context } => match reply.done() {
                Ok(_) => Turn::Ask(
                    Request::OpenFile { path: path.clone() },
                    RunCodeCall::Opening { path, context },
                ),
                Err(m) => Turn::Done(
                    Err(LeanToolError::Other(glue("Error writing code snippet: ", m.as_str()))),
                ),
            },
            RunCodeCall::Opening { path, context } => match reply.done() {
                Ok(_) => Turn::Ask(
                    Request::Diagnostics {
                        path: path.clone(),
                        start_line: None,
                        end_line: None,
                        bounded: true,
                    },
                    RunCodeCall::Diagnosing { path, context },
                ),
                Err(m) => RunCodeCall::clean(path, Err(lsp_error("open_file", m))),
            },
            RunCodeCall::Diagnosing { path, context } => match reply.value() {
                Ok(raw) => RunCodeCall::clean(path, Ok(read_run(&raw, context))),
                Err(m) => RunCodeCall::clean(path, Err(lsp_error("get_diagnostics", m))),
            },
            RunCodeCall::Closing { path, res } => Turn::Ask(
                Request::RemoveFile { path },
                RunCodeCall::Removing { res },
            ),
            RunCodeCall::Removing { res } => Turn::Done(res),
        }
    }
}

/// What the compiler says of some code, in the temporary file with the
/// identifier `id`.
pub fn run_code_as(
    id: &str,
    code: &str,
    context_path: Option<String>,
    heartbeats: Option<String>,
) -> (t: Turn<RunCodeCall, Result<RunResult, LeanToolError>>)
    ensures
        begins(
            t,
            run_dialogue(
                snippet_path(id@),
                (CodeView {
                    code: code@,
                    context_path: opt_text(context_path),
                    heartbeats: opt_text(heartbeats),
                }),
            ),
        ),
{
    let path = glue3(".lake/_mcp/_mcp_snippet_", id, ".lean");
    Turn::Ask(
        Request::MakeDirectory { path: ".lake/_mcp".to_owned() },
        RunCodeCall::Making { path, code: code.to_owned(), context_path, heartbeats },
    )
}

/// What the compiler says of some code, which stands behind the content of the
/// file `context_path` where one is given. `heartbeats` is the limit on
/// elaboration that the user wants, where one is wanted.
pub fn handle_run_code(code: &str, context_path: Option<String>, heartbeats: Option<String>) -> (t:
    Turn<RunCodeCall, Result<RunResult, LeanToolError>>)
    ensures
        exists|id: Seq<char>|
            is_uuid(id) && #[trigger] begins(
                t,
                run_dialogue(
                    snippet_path(id),
                    (CodeView {
                        code: code@,
                        context_path: opt_text(context_path),
                        heartbeats: opt_text(heartbeats),
                    }),
                ),
            ),
{
    let id = fresh_id();
    run_code_as(id.as_str(), code, context_path, heartbeats)
}

} // verus!
