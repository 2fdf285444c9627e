//! `lean_proof_diff`: what changed between the goals at two places of a file.
use crate::error::{result_view, ErrorView, LeanToolError};
use crate::models::{GoalDiffResult, GoalDiffResultView};
use crate::position::{before_of, number_before};
use crate::protocol::{
    begins, followed, lemma_followed, lsp_error, lsp_failure, waiting_first, Call, Dialogue, Reply,
    ReplyView, Request, RequestView, Turn, Waiting, Waits,
};
use crate::text::{byte_len, texts, trim_end_of, trimmed_end_bytes};
use crate::tools::file::{file_dialogue, line_at, line_text, open_and_read, FileRead, ReadSaid};
use vstd::prelude::*;
use vstd::string::*;

verus! {

/// What `lean_proof_diff` comes to.
pub type DiffSaid = Result<GoalDiffResultView, ErrorView>;

/// Two places of a file, with lines and columns from 1.
#[derive(Clone, Copy)]
pub struct Places {
    pub before_line: u32,
    pub before_column: Option<u32>,
    pub after_line: u32,
    pub after_column: Option<u32>,
}

/// The column (from 0) at which the goals of a line are asked for: the one
/// given (from 1), else behind the line's text.
pub open spec fn diff_column(line: Seq<char>, column: Option<u32>) -> u32 {
    match column {
        Some(c) => before_of(c),
        None => byte_len(trim_end_of(line)) as u32,
    }
}

/// The column (from 0) at which the goals of a line are asked for.
pub fn goal_column(line: &str, column: Option<u32>) -> (r: u32)
    ensures
        r == diff_column(line@, column),
{
    match column {
        Some(c) => number_before(c),
        None => trimmed_end_bytes(line) as u32,
    }
}

/// A comparison without content, for a reply of an unexpected kind.
pub open spec fn no_diff() -> GoalDiffResultView {
    GoalDiffResultView {
        goals_added: Seq::empty(),
        goals_removed: Seq::empty(),
        hypotheses_added: Seq::empty(),
        hypotheses_removed: Seq::empty(),
        changed: false,
    }
}

/// After the goals were compared.
pub open spec fn goals_compared() -> Waiting<DiffSaid> {
    |r: ReplyView|
        Dialogue::Finish(
            Ok(
                match r {
                    ReplyView::Diff(d) => d,
                    _ => no_diff(),
                },
            ),
        )
}

/// After the goals at the second place came.
pub open spec fn second_goals(before: Seq<Seq<char>>) -> Waiting<DiffSaid> {
    |r: ReplyView|
        match r {
            ReplyView::Texts(after) => Dialogue::Ask(
                RequestView::DiffGoals { before, after },
                goals_compared(),
            ),
            _ => Dialogue::Finish(Err(lsp_failure("get_goal"@, r.trouble()))),
        }
}

/// After the goals at the first place came.
pub open spec fn first_goals(path: Seq<char>, line: u32, column: u32) -> Waiting<DiffSaid> {
    |r: ReplyView|
        match r {
            ReplyView::Texts(before) => Dialogue::Ask(
                RequestView::Goal { path, line, column },
                second_goals(before),
            ),
            _ => Dialogue::Finish(Err(lsp_failure("get_goal"@, r.trouble()))),
        }
}

/// Asks for the goals at two places of a file that was read.
pub open spec fn diff_within(
    path: Seq<char>,
    p: Places) -> spec_fn(ReadSaid,
) -> Dialogue<DiffSaid> {
    |res: ReadSaid|
        match res {
            Ok(content) => match (line_at(content, p.before_line), line_at(content, p.after_line)) {
                (Ok(b), Ok(a)) => Dialogue::Ask(
                    RequestView::Goal {
                        path,
                        line: (p.before_line - 1) as u32,
                        column: diff_column(b, p.before_column),
                    },
                    first_goals(
                        path,
                        (p.after_line - 1) as u32,
                        diff_column(a, p.after_column),
                    ),
                ),
                (Err(e), _) => Dialogue::Finish(Err(e)),
                (_, Err(e)) => Dialogue::Finish(Err(e)),
            },
            Err(e) => Dialogue::Finish(Err(e)),
        }
}

/// The whole of `lean_proof_diff`.
pub open spec fn diff_dialogue(path: Seq<char>, p: Places) -> Dialogue<DiffSaid> {
    followed(file_dialogue(path), diff_within(path, p))
}

/// `lean_proof_diff` at work.
pub enum ProofDiffCall {
    /// Waits for the content of the file.
    Reading { call: FileRead, path: String, places: Places },
    /// Waits for the goals at the first place.
    First { path: String, line: u32, column: u32 },
    /// Waits for the goals at the second place.
    Second { before: Vec<String> },
    /// Waits for the comparison.
    Comparing,
}

impl Waits for ProofDiffCall {
    type Out = Result<GoalDiffResult, LeanToolError>;

    type Said = DiffSaid;

    open spec fn said(o: Self::Out) -> DiffSaid {
        result_view(o)
    }

    open spec fn valid(self) -> bool {
        true
    }

    open spec fn waiting(self) -> Waiting<DiffSaid> {
        match self {
            ProofDiffCall::Reading { call, path, places } => waiting_first(
                call.waiting(),
                diff_within(path@, places),
            ),
            ProofDiffCall::First { path, line, column } => first_goals(path@, line, column),
            ProofDiffCall::Second { before } => second_goals(texts(before@)),
            ProofDiffCall::Comparing => goals_compared(),
        }
    }

    open spec fn admits(self, r: ReplyView) -> bool {
        true
    }
}

impl ProofDiffCall {
    /// Asks for the goals at the first place.
    fn ask(path: String, content: &str, p: Places) -> (t: Turn<
        ProofDiffCall,
        Result<GoalDiffResult, LeanToolError>,
    >)
        ensures
            begins(t, (diff_within(path@, p))(Ok(content@))),
    {
        let before = match line_text(content, p.before_line) {
            Ok(text) => text,
            Err(e) => return Turn::Done(Err(e)),
        };
        let after = match line_text(content, p.after_line) {
            Ok(text) => text,
            Err(e) => return Turn::Done(Err(e)),
        };
        let q = Request::Goal {
            path: path.clone(),
            line: p.before_line - 1,
            column: goal_column(before.as_str(), p.before_column),
        };
        Turn::Ask(
            q,
            ProofDiffCall::First {
                path,
                line: p.after_line - 1,
                column: goal_column(after.as_str(), p.after_column),
            },
        )
    }

    /// Goes on with the reading.
    fn read(t: Turn<FileRead, Result<String, LeanToolError>>, path: String, places: Places) -> (r:
        Turn<ProofDiffCall, Result<GoalDiffResult, LeanToolError>>)
        ensures
            forall|d: Dialogue<ReadSaid>| #[trigger]
                begins(t, d) ==> begins(r, followed(d, diff_within(path@, places))),
    {
        match t {
            Turn::Ask(q, call) => {
                proof {
                    lemma_followed(q@, call.waiting(), diff_within(path@, places));
                }
                Turn::Ask(q, ProofDiffCall::Reading { call, path, places })
            },
            Turn::Done(Ok(content)) => ProofDiffCall::ask(path, content.as_str(), places),
            Turn::Done(Err(e)) => Turn::Done(Err(e)),
        }
    }
}

impl Call for ProofDiffCall {
    fn accepts(&self, reply: &Reply) -> (r: bool) {
        true
    }

    fn resume(self, reply: Reply) -> (t: Turn<Self, Self::Out>) {
        match self {
            ProofDiffCall::Reading { call, path, places } => ProofDiffCall::read(
                call.resume(reply),
                path,
                places,
            ),
            ProofDiffCall::First { path, line, column } => match reply.texts() {
                Ok(before) => Turn::Ask(
                    Request::Goal { path, line, column },
                    ProofDiffCall::Second { before },
                ),
                Err(m) => Turn::Done(Err(lsp_error("get_goal", m))),
            },
            ProofDiffCall::Second { before } => match reply.texts() {
                Ok(after) => Turn::Ask(
                    Request::DiffGoals { before, after },
                    ProofDiffCall::Comparing,
                ),
                Err(m) => Turn::Done(Err(lsp_error("get_goal", m))),
            },
            ProofDiffCall::Comparing => match reply {
                Reply::Diff(d) => Turn::Done(Ok(d)),
                _ => {
                    let d = GoalDiffResult {
                        goals_added: Vec::new(),
                        goals_removed: Vec::new(),
                        hypotheses_added: Vec::new(),
                        hypotheses_removed: Vec::new(),
                        changed: false,
                    };
                    proof {
                        assert(texts(d.goals_added@) =~= Seq::empty());
                        assert(texts(d.goals_removed@) =~= Seq::empty());
                        assert(texts(d.hypotheses_added@) =~= Seq::empty());
                        assert(texts(d.hypotheses_removed@) =~= Seq::empty());
                    }
                    Turn::Done(Ok(d))
                },
            },
        }
    }
}

/// What changed between the goals at two places of a file, before and after a
/// tactic. Lines and columns count from 1; a column that is not given is the end
/// of the line's text.
pub fn handle_lean_proof_diff(
    file_path: &str,
    before_line: u32,
    before_column: Option<u32>,
    after_line: u32,
    after_column: Option<u32>,
) -> (t: Turn<ProofDiffCall, Result<GoalDiffResult, LeanToolError>>)
    ensures
        begins(
            t,
            diff_dialogue(
                file_path@,
                (Places { before_line, before_column, after_line, after_column }),
            ),
        ),
{
    let places = Places { before_line, before_column, after_line, after_column };
    ProofDiffCall::read(open_and_read(file_path), file_path.to_owned(), places)
}

} // verus!
