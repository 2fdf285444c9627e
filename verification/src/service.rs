//! How the server serves a call, in terms of what it asked for and was replied.
use crate::error::ErrorView;
use crate::json::JsonView;
use crate::models::opt_text;
use crate::protocol::{
    ends_well, followed, lemma_followed_ends_well, Dialogue, ReplyView, RequestView,
};
use crate::server::{
    at_line, batch_entered, batch_found, batch_place_dialogue, declaration_of, file_of, line_found,
    place_of, project_dialogue, serve_dialogue, task_dialogue, BatchPlaceView, Place, ProjectSaid,
    TaskSaid,
};
use crate::tools::answers::{hearing, unheard, Heard};
use crate::tools::batch::{wants_client, wants_project};
use crate::tools::symbol_resolve::line_dialogue;
use crate::tools::toolbox::{answer_dialogue, tool_of, OutcomeView, SettingsView, ToolCall};
use vstd::prelude::*;

verus! {

// ---------------------------------------------------------------------------
// Projects
// ---------------------------------------------------------------------------

/// What the user is told where no project is found.
pub open spec fn nowhere() -> Seq<char> {
    "No Lean project path configured and auto-detection failed. Pass --lean-project-path or run from within a Lean project directory."@
}

/// Whether the project of the working directory was looked for with request number `k`, and
/// counts.
pub open spec fn by_directory(h: Heard, k: int, o: ProjectSaid) -> bool {
    &&& h.len() == k + 1
    &&& h[k].0 == (RequestView::DetectProject { from: None })
    &&& o == match h[k].1 {
        ReplyView::MaybeText(Some(project)) => Ok::<Seq<char>, Seq<char>>(project),
        _ => Err(nowhere()),
    }
}

/// How the search for a project is to end: the one that was set counts, or else the one
/// that holds the file, or else the one that holds the working directory.
pub open spec fn project_told(set: Option<Seq<char>>, file: Option<Seq<char>>) -> spec_fn(
    Heard,
    ProjectSaid,
) -> bool {
    |h: Heard, o: ProjectSaid|
        match (set, file) {
            (Some(project), _) => h.len() == 0 && o == Ok::<Seq<char>, Seq<char>>(project),
            (None, Some(path)) => {
                &&& h.len() >= 1
                &&& h[0].0 == (RequestView::DetectProject { from: Some(path) })
                &&& match h[0].1 {
                    ReplyView::MaybeText(Some(project)) => h.len() == 1 && o == Ok::<
                        Seq<char>,
                        Seq<char>,
                    >(project),
                    _ => by_directory(h, 1, o),
                }
            },
            (None, None) => by_directory(h, 0, o),
        }
}

/// The project that counts is found.
pub proof fn lemma_project_tells(set: Option<Seq<char>>, file: Option<Seq<char>>)
    ensures
        ends_well(project_dialogue(set, file), hearing(), unheard(), project_told(set, file)),
{
    reveal_with_fuel(ends_well, 4);
}

// ---------------------------------------------------------------------------
// Calls
// ---------------------------------------------------------------------------

/// A call works with a language server where its tool does, and so does a scan of the
/// project that looks for goals. It works in a project where its tool does, and so do a
/// scan, and a local search that names no root. All others work anywhere.
pub proof fn lemma_places(call: ToolCall)
    ensures
        place_of(call) == Place::Client <==> wants_client(tool_of(call)) || (call
            matches ToolCall::ProjectHealth(p) && p.include_goals == Some(true)),
        place_of(call) == Place::Anywhere ==> !wants_client(tool_of(call)) && !wants_project(
            tool_of(call),
        ),
        place_of(call) == Place::Anywhere <==> call is LeanSearch || call is Loogle || call
            is LeanFinder || (call matches ToolCall::LocalSearch(p) && p.project_root is Some),
{
}

/// The file of a call is the one that its parameters name, and a call whose parameters name
/// none is about none.
pub proof fn lemma_files_named(call: ToolCall)
    ensures
        call matches ToolCall::Goal(p) ==> file_of(call) == Some(p.file_path@),
        call matches ToolCall::TermGoal(p) ==> file_of(call) == Some(p.file_path@),
        call matches ToolCall::Hover(p) ==> file_of(call) == Some(p.file_path@),
        call matches ToolCall::Completions(p) ==> file_of(call) == Some(p.file_path@),
        call matches ToolCall::Diagnostics(p) ==> file_of(call) == Some(p.file_path@),
        call matches ToolCall::Outline(p) ==> file_of(call) == Some(p.file_path@),
        call matches ToolCall::Declaration(p) ==> file_of(call) == Some(p.file_path@),
        call matches ToolCall::References(p) ==> file_of(call) == Some(p.file_path@),
        call matches ToolCall::MultiAttempt(p) ==> file_of(call) == Some(p.file_path@),
        call matches ToolCall::Verify(p) ==> file_of(call) == Some(p.file_path@),
        call matches ToolCall::Profile(p) ==> file_of(call) == Some(p.file_path@),
        call matches ToolCall::StateSearch(p) ==> file_of(call) == Some(p.file_path@),
        call matches ToolCall::Premises(p) ==> file_of(call) == Some(p.file_path@),
        call matches ToolCall::CodeActions(p) ==> file_of(call) == Some(p.file_path@),
        call matches ToolCall::Widgets(p) ==> file_of(call) == Some(p.file_path@),
        call matches ToolCall::WidgetSource(p) ==> file_of(call) == Some(p.file_path@),
        call matches ToolCall::ProofDiff(p) ==> file_of(call) == Some(p.file_path@),
        file_of(call) is None <==> call is RunCode || call is Build || call is LeanSearch || call
            is Loogle || call is LeanFinder || call is GoalsBatch || call is LocalSearch || call
            is ProjectHealth,
{
}

/// A call at another line differs from it in the line alone, and only where it can name a
/// declaration whose line counts.
pub proof fn lemma_moved(call: ToolCall, line: u32)
    ensures
        tool_of(at_line(call, line)) == tool_of(call),
        file_of(at_line(call, line)) == file_of(call),
        declaration_of(at_line(call, line)) == declaration_of(call),
        call matches ToolCall::Goal(p) ==> (at_line(call, line) matches ToolCall::Goal(q) && q.line
            == line && q.column == p.column),
        call matches ToolCall::TermGoal(p) ==> (at_line(call, line) matches ToolCall::TermGoal(q)
            && q.line == line && q.column == p.column),
        call matches ToolCall::Hover(p) ==> (at_line(call, line) matches ToolCall::Hover(q)
            && q.line == line && q.column == p.column),
        call matches ToolCall::Completions(p) ==> (at_line(call, line)
            matches ToolCall::Completions(q) && q.line == line && q.column == p.column
            && q.max_completions == p.max_completions),
        call matches ToolCall::References(p) ==> (at_line(call, line)
            matches ToolCall::References(q) && q.line == line && q.column == p.column),
        !(call is Goal || call is TermGoal || call is Hover || call is Completions || call
            is References) ==> at_line(call, line) == call && declaration_of(call) is None,
        call matches ToolCall::Goal(p) ==> declaration_of(call) == opt_text(p.declaration_name),
        call matches ToolCall::TermGoal(p) ==> declaration_of(call) == opt_text(p.declaration_name),
        call matches ToolCall::Hover(p) ==> declaration_of(call) == opt_text(p.declaration_name),
        call matches ToolCall::Completions(p) ==> declaration_of(call) == opt_text(
            p.declaration_name,
        ),
        call matches ToolCall::References(p) ==> declaration_of(call) == opt_text(
            p.declaration_name,
        ),
{
}

/// A call that works anywhere is served as it is.
pub proof fn lemma_served_anywhere(call: ToolCall, set: Option<Seq<char>>, s: SettingsView)
    requires
        place_of(call) == Place::Anywhere,
    ensures
        serve_dialogue(call, set, s) == answer_dialogue(call, s),
{
}

/// Any other call first enters the project that counts, with a language server where it
/// works with one. Where that fails it says so; else the call is served as it is, or at the
/// line of the declaration that it names.
pub proof fn lemma_served_in_project(call: ToolCall, project: Seq<char>, s: SettingsView,
    r: ReplyView)
    requires
        place_of(call) != Place::Anywhere,
    ensures
        ({
            let d = serve_dialogue(call, Some(project), s);
            &&& d.requests(seq![r])[0] == (RequestView::EnterProject {
                project,
                client: place_of(call) == Place::Client,
            })
            &&& r matches ReplyView::Failed(words) ==> d.after(seq![r]) == Dialogue::Finish(
                Err::<OutcomeView, Seq<char>>(words),
            )
            &&& r is Done && declaration_of(call) is None ==> d.after(seq![r]) == answer_dialogue(
                call,
                s,
            )
            &&& r is Done ==> (declaration_of(call) matches Some(name) ==> d.after(seq![r])
                == followed(line_dialogue(file_of(call)->0, name), line_found(call, s)))
        }),
{
    let d = serve_dialogue(call, Some(project), s);
    reveal_with_fuel(Dialogue::requests, 3);
    reveal_with_fuel(Dialogue::after, 3);
    let rs = seq![r];
    assert(rs[0] == r);
    assert(rs.skip(1).len() == 0);
    lemma_moved(call, 0);
    lemma_files_named(call);
}

/// Where the line of a declaration was found, the call is served at that line; else its
/// error is put into words.
pub proof fn lemma_served_at_line(call: ToolCall, s: SettingsView, found: Result<u32, ErrorView>)
    ensures
        found matches Ok(line) ==> line_found(call, s)(found) == answer_dialogue(
            at_line(call, line),
            s,
        ),
        found matches Err(error) ==> line_found(call, s)(found).requests(
            seq![ReplyView::Done],
        )[0] == (RequestView::ErrorText { error }),
{
    reveal_with_fuel(Dialogue::requests, 3);
    let rs = seq![ReplyView::Done];
    assert(rs.skip(1).len() == 0);
}

// ---------------------------------------------------------------------------
// Batches and tasks
// ---------------------------------------------------------------------------

/// How the search for the place of a batch is to end: with the project that counts, and with
/// a language server where one could be had; with neither where there is no project.
pub open spec fn batch_place_told(set: Option<Seq<char>>) -> spec_fn(
    Heard,
    BatchPlaceView,
) -> bool {
    |h: Heard, o: BatchPlaceView|
        match o.project {
            Some(project) => {
                &&& h.len() >= 1
                &&& h.last().0 == (RequestView::EnterProject { project, client: true })
                &&& o.has_client <==> h.last().1 is Done
                &&& project_told(set, None)(h.drop_last(), Ok(project))
            },
            None => !o.has_client && project_told(set, None)(h, Err(nowhere())),
        }
}

/// The place of a batch is found.
pub proof fn lemma_batch_place_tells(set: Option<Seq<char>>)
    ensures
        ends_well(batch_place_dialogue(set), hearing(), unheard(), batch_place_told(set)),
{
    let told = project_told(set, None);
    let good = batch_place_told(set);
    let f = batch_found();
    lemma_project_tells(set, None);
    assert forall|h: Heard, o: ProjectSaid| #[trigger] told(h, o) implies ends_well(
        f(o),
        hearing(),
        h,
        good,
    ) by {
        match o {
            Ok(project) => {
                let q = RequestView::EnterProject { project, client: true };
                let k = batch_entered(project);
                assert forall|r: ReplyView|
                    ends_well(#[trigger] k(r), hearing(), h.push((q, r)), good) by {
                    assert(h.push((q, r)).drop_last() =~= h);
                }
            },
            Err(_) => {},
        }
    }
    lemma_followed_ends_well(
        project_dialogue(set, None),
        f,
        hearing(),
        unheard(),
        told,
        good,
    );
}

/// How the look at a task is to end: with what has become of it. It is cancelled first where
/// that is asked for, and else old tasks are forgotten first.
pub open spec fn task_told(task_id: Seq<char>, cancel: Option<bool>) -> spec_fn(
    Heard,
    TaskSaid,
) -> bool {
    |h: Heard, o: TaskSaid|
        {
            &&& h.len() >= 1
            &&& if cancel == Some(true) {
                &&& h[0].0 == (RequestView::CancelTask { task_id })
                &&& if h[0].1 == ReplyView::Flag(true) {
                    &&& h.len() == 2
                    &&& h[1].0 == (RequestView::TaskSnapshot { task_id })
                    &&& o == match h[1].1 {
                        ReplyView::MaybeValue(Some(v)) => Ok::<JsonView, Seq<char>>(v),
                        _ => Err("Task '"@ + task_id + "' not found"@),
                    }
                } else {
                    h.len() == 1 && o == Err::<JsonView, Seq<char>>(
                        "Task '"@ + task_id + "' not found"@,
                    )
                }
            } else {
                &&& h.len() == 2
                &&& h[0].0 == RequestView::ForgetTasks
                &&& h[1].0 == (RequestView::TaskSnapshot { task_id })
                &&& o == match h[1].1 {
                    ReplyView::MaybeValue(Some(v)) => Ok::<JsonView, Seq<char>>(v),
                    _ => Err("Task '"@ + task_id + "' not found or expired"@),
                }
            }
        }
}

/// The look at a task tells what has become of it.
pub proof fn lemma_task_tells(task_id: Seq<char>, cancel: Option<bool>)
    ensures
        ends_well(task_dialogue(task_id, cancel), hearing(), unheard(), task_told(task_id, cancel)),
{
    reveal_with_fuel(ends_well, 4);
}

} // verus!
