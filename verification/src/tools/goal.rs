//! `lean_goal` and `lean_term_goal`: the goals and the expected type at a place
//! of a file.
use crate::error::{result_view, ErrorView, LeanToolError};
use crate::json::{text_member, JsonView};
use crate::models::{GoalState, GoalStateView, TermGoalState, TermGoalStateView};
use crate::protocol::{
    begins, followed, lemma_followed, lsp_error, lsp_failure, waiting_first, Call, Dialogue, Reply,
    ReplyView, Request, RequestView, Turn, Waiting, Waits,
};
use crate::text::{
    byte_len, chars_of, ends_with, ends_with_of, first_non_space, indent_bytes, starts_with,
    starts_with_of, text_of, texts, trim_end_of, trimmed_end_bytes,
};
use crate::tools::file::{
    column_at, column_in, file_dialogue, line_at, line_text, open_and_read, FileRead, ReadSaid,
};
use vstd::prelude::*;
use vstd::slice::slice_subrange;
use vstd::string::*;

verus! {

/// What `lean_goal` comes to.
pub type GoalSaid = Result<GoalStateView, ErrorView>;

/// After the goals at the column came.
pub open spec fn goals_there(line: Seq<char>) -> Waiting<GoalSaid> {
    |r: ReplyView|
        Dialogue::Finish(
            match r {
                ReplyView::Texts(goals) => Ok(
                    GoalStateView {
                        line_context: line,
                        goals: Some(goals),
                        goals_before: None,
                        goals_after: None,
                    },
                ),
                _ => Err(lsp_failure("get_goal"@, r.trouble())),
            },
        )
}

/// After the goals at the end of the line came.
pub open spec fn goals_behind(line: Seq<char>, before: Seq<Seq<char>>) -> Waiting<GoalSaid> {
    |r: ReplyView|
        Dialogue::Finish(
            match r {
                ReplyView::Texts(after) => Ok(
                    GoalStateView {
                        line_context: line,
                        goals: None,
                        goals_before: Some(before),
                        goals_after: Some(after),
                    },
                ),
                _ => Err(lsp_failure("get_goal"@, r.trouble())),
            },
        )
}

/// After the goals at the beginning of the line came.
pub open spec fn goals_ahead(path: Seq<char>, lsp_line: u32, line: Seq<char>) -> Waiting<GoalSaid> {
    |r: ReplyView|
        match r {
            ReplyView::Texts(before) => Dialogue::Ask(
                RequestView::Goal {
                    path,
                    line: lsp_line,
                    column: byte_len(trim_end_of(line)) as u32,
                },
                goals_behind(line, before),
            ),
            _ => Dialogue::Finish(Err(lsp_failure("get_goal"@, r.trouble()))),
        }
}

/// Asks for the goals on a line of a file that was read: at the column where
/// one is given, else at the first character that is no white space and behind
/// the last one.
pub open spec fn goal_within(path: Seq<char>, line: u32, column: Option<u32>) -> spec_fn(
    ReadSaid,
) -> Dialogue<GoalSaid> {
    |res: ReadSaid|
        match res {
            Ok(content) => match line_at(content, line) {
                Ok(text) => match column {
                    Some(c) => match column_at(text, c) {
                        Ok(col) => Dialogue::Ask(
                            RequestView::Goal { path, line: (line - 1) as u32, column: col },
                            goals_there(text),
                        ),
                        Err(e) => Dialogue::Finish(Err(e)),
                    },
                    None => Dialogue::Ask(
                        RequestView::Goal {
                            path,
                            line: (line - 1) as u32,
                            column: first_non_space(text) as u32,
                        },
                        goals_ahead(path, (line - 1) as u32, text),
                    ),
                },
                Err(e) => Dialogue::Finish(Err(e)),
            },
            Err(e) => Dialogue::Finish(Err(e)),
        }
}

/// The whole of `lean_goal`.
pub open spec fn goal_dialogue(path: Seq<char>, line: u32, column: Option<u32>) -> Dialogue<
    GoalSaid,
> {
    followed(file_dialogue(path), goal_within(path, line, column))
}

/// `lean_goal` at work.
pub enum GoalCall {
    /// Waits for the content of the file.
    Reading { call: FileRead, path: String, line: u32, column: Option<u32> },
    /// Waits for the goals at the column.
    There { text: String },
    /// Waits for the goals at the beginning of the line.
    Ahead { path: String, lsp_line: u32, text: String },
    /// Waits for the goals at the end of the line.
    Behind { text: String, before: Vec<String> },
}

impl Waits for GoalCall {
    type Out = Result<GoalState, LeanToolError>;

    type Said = GoalSaid;

    open spec fn said(o: Self::Out) -> GoalSaid {
        result_view(o)
    }

    open spec fn valid(self) -> bool {
        true
    }

    open spec fn waiting(self) -> Waiting<GoalSaid> {
        match self {
            GoalCall::Reading { call, path, line, column } => waiting_first(
                call.waiting(),
                goal_within(path@, line, column),
            ),
            GoalCall::There { text } => goals_there(text@),
            GoalCall::Ahead { path, lsp_line, text } => goals_ahead(path@, lsp_line, text@),
            GoalCall::Behind { text, before } => goals_behind(text@, texts(before@)),
        }
    }

    open spec fn admits(self, r: ReplyView) -> bool {
        true
    }
}

impl GoalCall {
    /// Asks for the goals on a line of the content.
    fn ask(path: String, content: &str, line: u32, column: Option<u32>) -> (t: Turn<
        GoalCall,
        Result<GoalState, LeanToolError>,
    >)
        ensures
            begins(t, (goal_within(path@, line, column))(Ok(content@))),
    {
        let text = match line_text(content, line) {
            Ok(text) => text,
            Err(e) => return Turn::Done(Err(e)),
        };
        let lsp_line: u32 = line - 1;
        match column {
            Some(c) => match column_in(text.as_str(), c) {
                Ok(col) => Turn::Ask(
                    Request::Goal { path, line: lsp_line, column: col },
                    GoalCall::There { text },
                ),
                Err(e) => Turn::Done(Err(e)),
            },
            None => {
                let col: u32 = indent_bytes(text.as_str()) as u32;
                Turn::Ask(
                    Request::Goal { path: path.clone(), line: lsp_line, column: col },
                    GoalCall::Ahead { path, lsp_line, text },
                )
            },
        }
    }

    /// Goes on with the reading.
    fn read(
        t: Turn<FileRead, Result<String, LeanToolError>>,
        path: String,
        line: u32,
        column: Option<u32>,
    ) -> (r: Turn<GoalCall, Result<GoalState, LeanToolError>>)
        ensures
            forall|d: Dialogue<ReadSaid>| #[trigger]
                begins(t, d) ==> begins(r, followed(d, goal_within(path@, line, column))),
    {
        match t {
            Turn::Ask(q, call) => {
                proof {
                    lemma_followed(q@, call.waiting(), goal_within(path@, line, column));
                }
                Turn::Ask(q, GoalCall::Reading { call, path, line, column })
            },
            Turn::Done(Ok(content)) => GoalCall::ask(path, content.as_str(), line, column),
            Turn::Done(Err(e)) => Turn::Done(Err(e)),
        }
    }
}

impl Call for GoalCall {
    fn accepts(&self, reply: &Reply) -> (r: bool) {
        true
    }

    fn resume(self, reply: Reply) -> (t: Turn<Self, Self::Out>) {
        match self {
            GoalCall::Reading { call, path, line, column } => GoalCall::read(
                call.resume(reply),
                path,
                line,
                column,
            ),
            GoalCall::There { text } => Turn::Done(
                match reply.texts() {
                    Ok(goals) => Ok(
                        GoalState {
                            line_context: text,
                            goals: Some(goals),
                            goals_before: None,
                            goals_after: None,
                        },
                    ),
                    Err(m) => Err(lsp_error("get_goal", m)),
                },
            ),
            GoalCall::Ahead { path, lsp_line, text } => match reply.texts() {
                Ok(before) => {
                    let column: u32 = trimmed_end_bytes(text.as_str()) as u32;
                    Turn::Ask(
                        Request::Goal { path, line: lsp_line, column },
                        GoalCall::Behind { text, before },
                    )
                },
                Err(m) => Turn::Done(Err(lsp_error("get_goal", m))),
            },
            GoalCall::Behind { text, before } => Turn::Done(
                match reply.texts() {
                    Ok(after) => Ok(
                        GoalState {
                            line_context: text,
                            goals: None,
                            goals_before: Some(before),
                            goals_after: Some(after),
                        },
                    ),
                    Err(m) => Err(lsp_error("get_goal", m)),
                },
            ),
        }
    }
}

/// The goals on a line of a file: at the column where one is given, else before
/// and after the line's text. `line` and `column` count from 1.
pub fn handle_lean_goal(file_path: &str, line: u32, column: Option<u32>) -> (t: Turn<
    GoalCall,
    Result<GoalState, LeanToolError>,
>)
    ensures
        begins(t, goal_dialogue(file_path@, line, column)),
{
    GoalCall::read(open_and_read(file_path), file_path.to_owned(), line, column)
}

// ---------------------------------------------------------------------------
// The expected type
// ---------------------------------------------------------------------------

/// `s` without `p` at its beginning, where it stands there.
pub open spec fn without_prefix(s: Seq<char>, p: Seq<char>) -> Option<Seq<char>> {
    if starts_with_of(s, p) {
        Some(s.skip(p.len() as int))
    } else {
        None
    }
}

/// `s` without `p` at its end, where it stands there.
pub open spec fn without_suffix(s: Seq<char>, p: Seq<char>) -> Seq<char> {
    if ends_with_of(s, p) {
        s.take(s.len() - p.len())
    } else {
        s
    }
}

/// A text without the fence of a Lean code block around it.
pub open spec fn unfenced(s: Seq<char>) -> Seq<char> {
    let t = match without_prefix(s, "```lean\n"@) {
        Some(t) => t,
        None => match without_prefix(s, "```lean\r\n"@) {
            Some(t) => t,
            None => s,
        },
    };
    without_suffix(without_suffix(t, "\n```"@), "\r\n```"@)
}

/// `s` without `p` at its end, where it stands there.
fn strip_suffix<'a>(s: &'a [char], p: &str) -> (r: &'a [char])
    ensures
        r@ == without_suffix(s@, p@),
{
    let cs = chars_of(p);
    if ends_with(s, &cs) {
        let r = slice_subrange(s, 0, s.len() - cs.len());
        proof {
            assert(r@ =~= s@.take(s@.len() - p@.len()));
        }
        r
    } else {
        s
    }
}

/// `s` without `p` at its beginning, where it stands there.
fn strip_prefix<'a>(s: &'a [char], p: &str) -> (r: Option<&'a [char]>)
    ensures
        r is Some <==> without_prefix(s@, p@) is Some,
        r matches Some(t) ==> without_prefix(s@, p@) == Some(t@),
{
    let cs = chars_of(p);
    if starts_with(s, &cs) {
        let r = slice_subrange(s, cs.len(), s.len());
        proof {
            assert(r@ =~= s@.skip(p@.len() as int));
        }
        Some(r)
    } else {
        None
    }
}

/// A text without the fence of a Lean code block around it.
pub fn strip_markdown_fences(s: &str) -> (r: String)
    ensures
        r@ == unfenced(s@),
{
    let cs = chars_of(s);
    let t = match strip_prefix(&cs, "```lean\n") {
        Some(t) => t,
        None => match strip_prefix(&cs, "```lean\r\n") {
            Some(t) => t,
            None => &cs,
        },
    };
    text_of(strip_suffix(strip_suffix(t, "\n```"), "\r\n```"))
}

/// What `lean_term_goal` comes to.
pub type TermGoalSaid = Result<TermGoalStateView, ErrorView>;

/// The expected type that a reply of the language server tells.
pub open spec fn expected_type(v: Option<JsonView>) -> Option<Seq<char>> {
    match v {
        Some(j) => match text_member(j, "goal"@) {
            Some(s) => Some(unfenced(s)),
            None => None,
        },
        None => None,
    }
}

/// After the expected type came.
pub open spec fn type_told(line: Seq<char>) -> Waiting<TermGoalSaid> {
    |r: ReplyView|
        Dialogue::Finish(
            match r {
                ReplyView::MaybeValue(v) => Ok(
                    TermGoalStateView { line_context: line, expected_type: expected_type(v) },
                ),
                _ => Err(lsp_failure("get_term_goal"@, r.trouble())),
            },
        )
}

/// Asks for the expected type on a line of a file that was read: at the column
/// where one is given, else behind the last character that is no white space.
pub open spec fn term_within(path: Seq<char>, line: u32, column: Option<u32>) -> spec_fn(
    ReadSaid,
) -> Dialogue<TermGoalSaid> {
    |res: ReadSaid|
        match res {
            Ok(content) => match line_at(content, line) {
                Ok(text) => {
                    let col = match column {
                        Some(c) => column_at(text, c),
                        None => Ok(byte_len(trim_end_of(text)) as u32),
                    };
                    match col {
                        Ok(c) => Dialogue::Ask(
                            RequestView::TermGoal { path, line: (line - 1) as u32, column: c },
                            type_told(text),
                        ),
                        Err(e) => Dialogue::Finish(Err(e)),
                    }
                },
                Err(e) => Dialogue::Finish(Err(e)),
            },
            Err(e) => Dialogue::Finish(Err(e)),
        }
}

/// The whole of `lean_term_goal`.
pub open spec fn term_goal_dialogue(path: Seq<char>, line: u32, column: Option<u32>) -> Dialogue<
    TermGoalSaid,
> {
    followed(file_dialogue(path), term_within(path, line, column))
}

/// `lean_term_goal` at work.
pub enum TermGoalCall {
    /// Waits for the content of the file.
    Reading { call: FileRead, path: String, line: u32, column: Option<u32> },
    /// Waits for the expected type.
    Asking { text: String },
}

impl Waits for TermGoalCall {
    type Out = Result<TermGoalState, LeanToolError>;

    type Said = TermGoalSaid;

    open spec fn said(o: Self::Out) -> TermGoalSaid {
        result_view(o)
    }

    open spec fn valid(self) -> bool {
        true
    }

    open spec fn waiting(self) -> Waiting<TermGoalSaid> {
        match self {
            TermGoalCall::Reading { call, path, line, column } => waiting_first(
                call.waiting(),
                term_within(path@, line, column),
            ),
            TermGoalCall::Asking { text } => type_told(text@),
        }
    }

    open spec fn admits(self, r: ReplyView) -> bool {
        true
    }
}

impl TermGoalCall {
    /// Asks for the expected type on a line of the content.
    fn ask(path: String, content: &str, line: u32, column: Option<u32>) -> (t: Turn<
        TermGoalCall,
        Result<TermGoalState, LeanToolError>,
    >)
        ensures
            begins(t, (term_within(path@, line, column))(Ok(content@))),
    {
        let text = match line_text(content, line) {
            Ok(text) => text,
            Err(e) => return Turn::Done(Err(e)),
        };
        let col: u32 = match column {
            Some(c) => match column_in(text.as_str(), c) {
                Ok(col) => col,
                Err(e) => return Turn::Done(Err(e)),
            },
            None => trimmed_end_bytes(text.as_str()) as u32,
        };
        Turn::Ask(
            Request::TermGoal { path, line: line - 1, column: col },
            TermGoalCall::Asking { text },
        )
    }

    /// Goes on with the reading.
    fn read(
        t: Turn<FileRead, Result<String, LeanToolError>>,
        path: String,
        line: u32,
        column: Option<u32>,
    ) -> (r: Turn<TermGoalCall, Result<TermGoalState, LeanToolError>>)
        ensures
            forall|d: Dialogue<ReadSaid>| #[trigger]
                begins(t, d) ==> begins(r, followed(d, term_within(path@, line, column))),
    {
        match t {
            Turn::Ask(q, call) => {
                proof {
                    lemma_followed(q@, call.waiting(), term_within(path@, line, column));
                }
                Turn::Ask(q, TermGoalCall::Reading { call, path, line, column })
            },
            Turn::Done(Ok(content)) => TermGoalCall::ask(path, content.as_str(), line, column),
            Turn::Done(Err(e)) => Turn::Done(Err(e)),
        }
    }
}

impl Call for TermGoalCall {
    fn accepts(&self, reply: &Reply) -> (r: bool) {
        true
    }

    fn resume(self, reply: Reply) -> (t: Turn<Self, Self::Out>) {
        match self {
            TermGoalCall::Reading { call, path, line, column } => TermGoalCall::read(
                call.resume(reply),
                path,
                line,
                column,
            ),
            TermGoalCall::Asking { text } => match reply.maybe_value() {
                Ok(v) => {
                    let expected_type = match &v {
                        Some(j) => match j.text_member("goal") {
                            Some(s) => Some(strip_markdown_fences(s)),
                            None => None,
                        },
                        None => None,
                    };
                    Turn::Done(Ok(TermGoalState { line_context: text, expected_type }))
                },
                Err(m) => Turn::Done(Err(lsp_error("get_term_goal", m))),
            },
        }
    }
}

/// The expected type on a line of a file: at the column where one is given, else
/// behind the line's text. `line` and `column` count from 1.
pub fn handle_lean_term_goal(file_path: &str, line: u32, column: Option<u32>) -> (t: Turn<
    TermGoalCall,
    Result<TermGoalState, LeanToolError>,
>)
    ensures
        begins(t, term_goal_dialogue(file_path@, line, column)),
{
    TermGoalCall::read(open_and_read(file_path), file_path.to_owned(), line, column)
}

/// Code in a fence is what stands in it; a text that neither begins nor ends as a fence does
/// is left as it is.
pub proof fn lemma_unfenced(code: Seq<char>, s: Seq<char>)
    requires
        !ends_with_of(code, "\r\n```"@),
        !starts_with_of(s, "```lean\n"@),
        !starts_with_of(s, "```lean\r\n"@),
        !ends_with_of(s, "\n```"@),
    ensures
        unfenced("```lean\n"@ + code + "\n```"@) == code,
        unfenced("```lean\n"@ + (code + "\r\n```"@) + "\n```"@) == code,
        code.len() == 0 || code.last() != '\r' ==> unfenced("```lean\r\n"@ + code + "\n```"@)
            == code,
        unfenced(s) == s,
{
    reveal_strlit("```lean\n");
    reveal_strlit("```lean\r\n");
    reveal_strlit("\n```");
    reveal_strlit("\r\n```");
    let a = "```lean\n"@;
    let b = "```lean\r\n"@;
    let z = "\n```"@;
    let y = "\r\n```"@;
    assert(a.len() == 8 && b.len() == 9 && z.len() == 4 && y.len() == 5);
    assert(y.skip(1) =~= z);
    let one = a + code + z;
    assert(one.take(8) =~= a);
    assert(one.skip(8) =~= code + z);
    assert((code + z).skip(code.len() as int) =~= z);
    assert((code + z).take(code.len() as int) =~= code);
    let closed = code + y;
    assert((a + closed + z).take(8) =~= a);
    assert((a + closed + z).skip(8) =~= closed + z);
    assert((closed + z).skip(closed.len() as int) =~= z);
    assert((closed + z).take(closed.len() as int) =~= closed);
    assert(closed.skip(code.len() as int) =~= y);
    assert(closed.take(code.len() as int) =~= code);
    let two = b + code + z;
    assert(two.take(8)[7] == '\r');
    assert(a[7] == '\n');
    assert(two.take(9) =~= b);
    assert(two.skip(9) =~= code + z);
    assert(!ends_with_of(s, y)) by {
        if ends_with_of(s, y) {
            assert(s.skip(s.len() - 4) =~= s.skip(s.len() - 5).skip(1));
        }
    }
}

} // verus!
