//! What the tools leave behind, however they are replied to.
use crate::error::ErrorView;
use crate::json::{items_member, JsonView};
use crate::lists::{lemma_filter_map_next, lemma_take_all};
use crate::models::{
    AttemptResultView, BatchGoalPositionView, CodeActionView, MultiAttemptResultView,
    SorryLocationView,
};
use crate::protocol::{
    asks_only, ends_well, followed, lemma_followed_asks_only, lemma_followed_ends_well, ReplyView,
    RequestView,
};
use crate::server::{
    project_dialogue, project_found, serve_dialogue, MultiAttemptParams, Place, ProjectSaid,
};
use crate::text::texts;
use crate::tools::batch_goals::{
    content_came, content_said, file_open, files_dialogue, files_of, lemma_first_occurrences,
    open_from, open_trouble, paths_of, read_from, FileSaid, FilesSaid,
};
use crate::tools::code_actions::{
    action_of, action_resolved, actions_dialogue, actions_told, collect_from, resolve_from,
    with_actions, LspRange,
};
use crate::tools::completions::{completions_dialogue, CompletionsSaid};
use crate::tools::file::{file_dialogue, ReadSaid};
use crate::tools::multi_attempt::{
    attempt_checked, attempts_from, check_dialogue, check_of, isolated_clean, isolated_dialogue,
    leave_file, lsp_dialogue, lsp_outcome, multi_attempt_dialogue, parallel_dialogue, plan_outcome,
    repl_dialogue, repl_outcome, run_edit, snippet_text, warm_dialogue, warm_restore, AttemptsSaid,
    AttemptsView, CheckView, PlanSaid, ReplSaid, RunView, ToolSaid,
};
use crate::tools::outline::{outline_dialogue, OutlineSaid};
use crate::tools::profile::{profile_dialogue, ProfileSaid};
use crate::tools::project_health::{
    enrich_from, health_dialogue, sorry_goals, sorry_opened, sorry_read, with_goal, ScanView,
};
use crate::tools::run_code::{run_clean, run_dialogue, run_write, CodeView, RunSaid};
use crate::tools::search::{loogle_dialogue, loogle_hit, loogle_hits, LoogleSaid};
use crate::tools::toolbox::{answer_dialogue, tool_dialogue, tool_of, SettingsView, Tool, ToolCall};
use crate::tools::verify::{verify_dialogue, verify_within, VerifySaid};
use vstd::prelude::*;

verus! {

// ---------------------------------------------------------------------------
// Files that a tool edits
// ---------------------------------------------------------------------------

/// What has become of a file in the language server.
pub struct FileState {
    /// What the language server said that it holds.
    pub told: Option<Seq<char>>,
    /// Whether it was asked for no change since, or last of all to hold that again.
    pub intact: bool,
}

/// What a request and its reply make of a file in the language server. A change
/// counts once it is asked for, whether the server makes it or not.
pub open spec fn file_step(path: Seq<char>) -> spec_fn(
    FileState,
    RequestView,
    ReplyView,
) -> FileState {
    |s: FileState, q: RequestView, r: ReplyView|
        match q {
            RequestView::FileContent { path: p } => match r {
                ReplyView::Text(content) => if p == path && s.told is None {
                    FileState { told: Some(content), ..s }
                } else {
                    s
                },
                _ => s,
            },
            RequestView::UpdateFile { path: p, .. } => if p == path {
                FileState { intact: false, ..s }
            } else {
                s
            },
            RequestView::ReplaceContent { path: p, content } => if p == path {
                FileState { intact: s.told == Some(content), ..s }
            } else {
                s
            },
            _ => s,
        }
}

/// A file of which nothing was said yet.
pub open spec fn untouched() -> FileState {
    FileState { told: None, intact: true }
}

/// A file whose content is known.
pub open spec fn holding(content: Seq<char>, intact: bool) -> FileState {
    FileState { told: Some(content), intact }
}

/// An attempt of the snippet that is looked at, or an error; without a limit its
/// time is never over.
pub open spec fn attempt_of(c: CheckView, o: Result<AttemptResultView, ErrorView>) -> bool {
    o matches Ok(a) ==> a.snippet == c.snippet && (c.limit is None ==> !a.timed_out)
}

/// A look at a snippet changes no file and tells of that snippet.
proof fn lemma_check_harmless(c: CheckView, path: Seq<char>, s: FileState)
    ensures
        ends_well(
            check_dialogue(c),
            file_step(path),
            s,
            |t: FileState, o: Result<AttemptResultView, ErrorView>|
                t == s && attempt_of(c, o),
        ),
{
    reveal_with_fuel(ends_well, 4);
}

/// Attempts of some snippets in their order, from the first on, none of which ran
/// out of time.
pub open spec fn attempts_among(snippets: Seq<Seq<char>>, items: Seq<AttemptResultView>) -> bool {
    &&& items.len() <= snippets.len()
    &&& forall|i: int|
        0 <= i < items.len() ==> (#[trigger] items[i]).snippet == snippet_text(snippets[i])
            && !items[i].timed_out
}

/// The attempts of some snippets, one for each and in their order, none of which
/// ran out of time.
pub open spec fn attempts_of(snippets: Seq<Seq<char>>, items: Seq<AttemptResultView>) -> bool {
    items.len() == snippets.len() && attempts_among(snippets, items)
}

/// How the tool that tries snippets in the file itself is to end: the file is as
/// it was, and each snippet has its attempt.
pub open spec fn attempts_end_well(snippets: Seq<Seq<char>>) -> spec_fn(
    FileState,
    AttemptsSaid,
) -> bool {
    |s: FileState, o: AttemptsSaid|
        s.intact && (o matches Ok(m) ==> attempts_of(snippets, m.items))
}

/// The file is put back for good.
proof fn lemma_left(
    path: Seq<char>,
    content: Seq<char>,
    intact: bool,
    snippets: Seq<Seq<char>>,
    res: AttemptsSaid,
)
    requires
        res matches Ok(m) ==> attempts_of(snippets, m.items),
    ensures
        ends_well(
            leave_file(path, content, res),
            file_step(path),
            holding(content, intact),
            attempts_end_well(snippets),
        ),
{
    reveal_with_fuel(ends_well, 4);
}

/// From each snippet on, the file is as it was in the end.
proof fn lemma_attempts_from(run: RunView, i: nat, done: Seq<AttemptResultView>, intact: bool)
    requires
        i <= run.snippets.len(),
        attempts_of(run.snippets.take(i as int), done),
    ensures
        ends_well(
            attempts_from(run, i, done),
            file_step(run.path),
            holding(run.content, intact),
            attempts_end_well(run.snippets),
        ),
    decreases run.snippets.len() - i,
{
    let step = file_step(run.path);
    let good = attempts_end_well(run.snippets);
    if i < run.snippets.len() {
        let c = check_of(run.path, run.line, run_edit(run, i), None);
        let edited = holding(run.content, false);
        let k = crate::tools::multi_attempt::attempt_edited(run, i, done);
        assert forall|r: ReplyView|
            ends_well(
                #[trigger] k(r),
                step,
                step(
                    holding(run.content, intact),
                    RequestView::UpdateFile { path: run.path, change: run_edit(run, i).change },
                    r,
                ),
                good,
            ) by {
            if r is Done {
                let middle = |t: FileState, o: Result<AttemptResultView, ErrorView>|
                    t == edited && attempt_of(c, o);
                lemma_check_harmless(c, run.path, edited);
                let f = attempt_checked(run, i, done);
                assert forall|t: FileState, o: Result<AttemptResultView, ErrorView>| #[trigger]
                    middle(t, o) implies ends_well(f(o), step, t, good) by {
                    match o {
                        Ok(a) => {
                            let restored = crate::tools::multi_attempt::attempt_restored(
                                run,
                                i,
                                done.push(a),
                            );
                            let q = RequestView::ReplaceContent {
                                path: run.path,
                                content: run.content,
                            };
                            assert forall|r2: ReplyView|
                                ends_well(#[trigger] restored(r2), step, step(t, q, r2), good) by {
                                if r2 is Done {
                                    let more = run.snippets.take((i + 1) as int);
                                    assert(attempts_of(more, done.push(a))) by {
                                        assert forall|j: int| 0 <= j < done.push(a).len() implies (
                                        #[trigger] done.push(a)[j]).snippet == snippet_text(
                                            more[j],
                                        ) && !done.push(a)[j].timed_out by {
                                            if j < done.len() {
                                                assert(done[j].snippet == snippet_text(
                                                    run.snippets.take(i as int)[j],
                                                ));
                                            }
                                        }
                                    }
                                    lemma_attempts_from(run, i + 1, done.push(a), true);
                                } else {
                                    lemma_left(
                                        run.path,
                                        run.content,
                                        true,
                                        run.snippets,
                                        Err(
                                            crate::protocol::lsp_failure(
                                                "update_file_content"@,
                                                r2.trouble(),
                                            ),
                                        ),
                                    );
                                }
                            }
                        },
                        Err(e) => {
                            lemma_left(run.path, run.content, false, run.snippets, Err(e));
                        },
                    }
                }
                lemma_followed_ends_well(check_dialogue(c), f, step, edited, middle, good);
            } else {
                lemma_left(
                    run.path,
                    run.content,
                    false,
                    run.snippets,
                    Err(crate::protocol::lsp_failure("update_file"@, r.trouble())),
                );
            }
        }
    } else {
        assert(run.snippets.take(i as int) =~= run.snippets);
        lemma_left(
            run.path,
            run.content,
            intact,
            run.snippets,
            Ok(MultiAttemptResultView { items: done }),
        );
    }
}

/// Snippets that are tried in the file itself leave it as it was: whatever fails,
/// the last change that is asked for puts its content back. Where they are tried,
/// each of them has its attempt, in their order, and none runs out of time.
pub proof fn lemma_sequential_attempts_restore(
    path: Seq<char>,
    line: u32,
    snippets: Seq<Seq<char>>,
    column: Option<u32>,
)
    ensures
        ends_well(
            lsp_dialogue(path, line, snippets, column),
            file_step(path),
            untouched(),
            attempts_end_well(snippets),
        ),
{
    let step = file_step(path);
    let good = attempts_end_well(snippets);
    let opened = crate::tools::multi_attempt::lsp_opened(path, line, snippets, column);
    let read = crate::tools::multi_attempt::lsp_read(path, line, snippets, column);
    let q = RequestView::FileContent { path };
    assert forall|r: ReplyView|
        ends_well(#[trigger] read(r), step, step(untouched(), q, r), good) by {
        if let ReplyView::Text(content) = r {
            let lines = crate::text::lines_of(content);
            if 1 <= line <= lines.len() {
                if let Ok(col) = crate::tools::multi_attempt::column_of(lines[line - 1], column) {
                    let run = RunView {
                        path,
                        line,
                        content,
                        line_text: lines[line - 1],
                        total_lines: lines.len(),
                        target_col: col as u32,
                        snippets,
                    };
                    lemma_attempts_from(run, 0, Seq::empty(), true);
                }
            }
        }
    }
    assert forall|r: ReplyView|
        ends_well(
            #[trigger] opened(r),
            step,
            step(untouched(), RequestView::OpenFile { path }, r),
            good,
        ) by {}
}

/// One snippet that is tried in the file itself leaves it as it was, and its
/// attempt tells of it.
pub proof fn lemma_warm_attempt_restores(
    path: Seq<char>,
    content: Seq<char>,
    line: u32,
    target_col: u32,
    snippet: Seq<char>,
    limit: Option<Seq<char>>,
)
    ensures
        ends_well(
            warm_dialogue(path, content, line, target_col, snippet, limit),
            file_step(path),
            holding(content, true),
            |s: FileState, o: AttemptResultView|
                s.intact && o.snippet == snippet_text(snippet),
        ),
{
    let step = file_step(path);
    let good = |s: FileState, o: AttemptResultView|
        s.intact && o.snippet == snippet_text(snippet);
    let lines = crate::text::lines_of(content);
    let edit = crate::tools::multi_attempt::edit_of(
        crate::tools::multi_attempt::line_or_empty(lines, line),
        target_col,
        snippet,
        lines.len(),
        line,
    );
    let c = check_of(path, line, edit, limit);
    let f = warm_restore(path, content, c.snippet);
    let edited = holding(content, false);
    let middle = |t: FileState, o: Result<AttemptResultView, ErrorView>|
        t == edited && attempt_of(c, o);
    assert forall|t: FileState, o: Result<AttemptResultView, ErrorView>| #[trigger]
        middle(t, o) implies ends_well(f(o), step, t, good) by {
        reveal_with_fuel(ends_well, 4);
    }
    lemma_check_harmless(c, path, edited);
    lemma_followed_ends_well(check_dialogue(c), f, step, edited, middle, good);
    let k = crate::tools::multi_attempt::warm_edited(c, content);
    let q = RequestView::UpdateFile { path, change: edit.change };
    assert forall|r: ReplyView|
        ends_well(#[trigger] k(r), step, step(holding(content, true), q, r), good) by {
        if !(r is Done) {
            let o = crate::tools::multi_attempt::missed(c.limit, c.snippet, "update_file"@, r);
            assert(middle(edited, o));
        }
    }
}

/// Trying snippets leaves the file as it was, on whatever path. Where attempts
/// come back, each tells of the snippet in its place, and none of them ran out of
/// time; where the snippets are still to be tried at once, they are all there.
pub proof fn lemma_multi_attempt_restores(
    has_repl: bool,
    path: Seq<char>,
    line: u32,
    snippets: Seq<Seq<char>>,
    column: Option<u32>,
    parallel: Option<bool>,
)
    ensures
        ends_well(
            multi_attempt_dialogue(has_repl, path, line, snippets, column, parallel),
            file_step(path),
            untouched(),
            |s: FileState, o: ToolSaid|
                s.intact && match o {
                    Ok(AttemptsView::Done(m)) => attempts_among(snippets, m.items),
                    Ok(AttemptsView::Parallel(p)) => p.snippets == snippets,
                    Err(_) => true,
                },
        ),
{
    let step = file_step(path);
    let good = |s: FileState, o: ToolSaid|
        s.intact && match o {
            Ok(AttemptsView::Done(m)) => attempts_among(snippets, m.items),
            Ok(AttemptsView::Parallel(p)) => p.snippets == snippets,
            Err(_) => true,
        };
    if parallel == Some(true) {
        let d = parallel_dialogue(path, line, snippets);
        let f = plan_outcome();
        let middle = |s: FileState, o: PlanSaid|
            s.intact && (o matches Ok(p) ==> p.snippets == snippets);
        assert(ends_well(d, step, untouched(), middle)) by {
            reveal_with_fuel(ends_well, 5);
        }
        assert forall|s: FileState, o: PlanSaid| #[trigger] middle(s, o) implies ends_well(
            f(o),
            step,
            s,
            good,
        ) by {}
        lemma_followed_ends_well(d, f, step, untouched(), middle, good);
    } else {
        let lsp = lsp_dialogue(path, line, snippets, column);
        lemma_sequential_attempts_restore(path, line, snippets, column);
        let lsp_good = attempts_end_well(snippets);
        let g = lsp_outcome();
        assert forall|s: FileState, o: AttemptsSaid| #[trigger] lsp_good(s, o) implies ends_well(
            g(o),
            step,
            s,
            good,
        ) by {}
        lemma_followed_ends_well(lsp, g, step, untouched(), lsp_good, good);
        let d = repl_dialogue(has_repl, path, line, snippets, column);
        let f = repl_outcome(path, line, snippets, column);
        let middle = |s: FileState, o: ReplSaid|
            s.intact && match o {
                Ok(Some(m)) => attempts_among(snippets, m.items),
                Ok(None) => s == untouched(),
                Err(_) => true,
            };
        assert(ends_well(d, step, untouched(), middle)) by {
            reveal_with_fuel(ends_well, 5);
        }
        assert forall|s: FileState, o: ReplSaid| #[trigger] middle(s, o) implies ends_well(
            f(o),
            step,
            s,
            good,
        ) by {}
        lemma_followed_ends_well(d, f, step, untouched(), middle, good);
    }
}

/// Where the snippets are to be tried at once, neither the column nor the REPL
/// matters, and nothing is asked for but what planning them takes.
pub proof fn lemma_parallel_ignores_column(
    has_repl: bool,
    path: Seq<char>,
    line: u32,
    snippets: Seq<Seq<char>>,
    column: Option<u32>,
)
    ensures
        multi_attempt_dialogue(has_repl, path, line, snippets, column, Some(true)) == followed(
            parallel_dialogue(path, line, snippets),
            plan_outcome(),
        ),
{
}

/// Unless the snippets are to be tried at once, the limit on each of them does not
/// matter.
pub proof fn lemma_limit_ignored(p: MultiAttemptParams, q: MultiAttemptParams, s: SettingsView)
    requires
        p.parallel != Some(true),
        q.file_path@ == p.file_path@,
        q.line == p.line,
        texts(q.snippets@) == texts(p.snippets@),
        q.column == p.column,
        q.parallel == p.parallel,
    ensures
        tool_dialogue(ToolCall::MultiAttempt(p), s) == tool_dialogue(ToolCall::MultiAttempt(q), s),
{
}

/// Checking a theorem leaves its file as it was, whatever fails meanwhile.
pub proof fn lemma_verify_restores(path: Seq<char>, theorem: Seq<char>, scan_source: bool)
    ensures
        ends_well(
            verify_dialogue(path, theorem, scan_source),
            file_step(path),
            untouched(),
            |s: FileState, o: VerifySaid| s.intact,
        ),
{
    let step = file_step(path);
    let good = |s: FileState, o: VerifySaid| s.intact;
    let d = file_dialogue(path);
    let f = verify_within(path, theorem, scan_source);
    let middle = |s: FileState, o: ReadSaid|
        match o {
            Ok(content) => s == holding(content, true),
            Err(_) => s.intact,
        };
    assert(ends_well(d, step, untouched(), middle)) by {
        reveal_with_fuel(ends_well, 4);
    }
    assert forall|s: FileState, o: ReadSaid| #[trigger] middle(s, o) implies ends_well(
        f(o),
        step,
        s,
        good,
    ) by {
        reveal_with_fuel(ends_well, 6);
    }
    lemma_followed_ends_well(d, f, step, untouched(), middle, good);
}

// ---------------------------------------------------------------------------
// Files that a tool writes for itself
// ---------------------------------------------------------------------------

/// What has become of a file that a tool writes for itself.
pub struct TempState {
    /// Whether the file was written and not asked to be removed since.
    pub written: bool,
    /// Whether the language server was asked to open it.
    pub opened: bool,
}

/// What a request and its reply make of a file that a tool writes for itself.
pub open spec fn temp_step(path: Seq<char>) -> spec_fn(
    TempState,
    RequestView,
    ReplyView,
) -> TempState {
    |s: TempState, q: RequestView, r: ReplyView|
        match q {
            RequestView::WriteFile { path: p, .. } => if p == path && r is Done {
                TempState { written: true, ..s }
            } else {
                s
            },
            RequestView::RemoveFile { path: p } => if p == path {
                TempState { written: false, ..s }
            } else {
                s
            },
            RequestView::OpenFile { path: p } => if p == path {
                TempState { opened: true, ..s }
            } else {
                s
            },
            RequestView::CloseFile { path: p } => if p == path {
                TempState { opened: false, ..s }
            } else {
                s
            },
            _ => s,
        }
}

/// A file that is not there.
pub open spec fn absent() -> TempState {
    TempState { written: false, opened: false }
}

/// A look at a snippet writes nothing.
proof fn lemma_check_writes_nothing(c: CheckView, path: Seq<char>, s: TempState)
    ensures
        ends_well(
            check_dialogue(c),
            temp_step(path),
            s,
            |t: TempState, o: Result<AttemptResultView, ErrorView>|
                t == s && attempt_of(c, o),
        ),
{
    reveal_with_fuel(ends_well, 4);
}

/// A snippet that is tried in a file of its own leaves nothing of that file, and
/// its attempt tells of it.
pub proof fn lemma_isolated_attempt_cleans_up(
    path: Seq<char>,
    snippet: Seq<char>,
    base_code: Seq<char>,
    indent: Seq<char>,
    limit: Option<Seq<char>>,
)
    ensures
        ends_well(
            isolated_dialogue(path, snippet, base_code, indent, limit),
            temp_step(path),
            absent(),
            |s: TempState, o: AttemptResultView|
                s == absent() && o.snippet == snippet_text(snippet),
        ),
{
    let step = temp_step(path);
    let good = |s: TempState, o: AttemptResultView|
        s == absent() && o.snippet == snippet_text(snippet);
    let c = crate::tools::multi_attempt::isolated_check(path, snippet, base_code, indent, limit);
    let content = crate::tools::multi_attempt::isolated_code(snippet, base_code, indent);
    let f = isolated_clean(path, c.snippet);
    let there = TempState { written: true, opened: true };
    let middle = |t: TempState, o: Result<AttemptResultView, ErrorView>|
        t == there && attempt_of(c, o);
    assert forall|t: TempState, o: Result<AttemptResultView, ErrorView>| #[trigger]
        middle(t, o) implies ends_well(f(o), step, t, good) by {
        reveal_with_fuel(ends_well, 5);
    }
    lemma_check_writes_nothing(c, path, there);
    lemma_followed_ends_well(check_dialogue(c), f, step, there, middle, good);
    let opened = crate::tools::multi_attempt::isolated_opened(c);
    let before = TempState { written: true, opened: false };
    assert forall|r: ReplyView|
        ends_well(
            #[trigger] opened(r),
            step,
            step(before, RequestView::OpenFile { path }, r),
            good,
        ) by {
        if !(r is Done) {
            let o = crate::tools::multi_attempt::missed(c.limit, c.snippet, "open_file"@, r);
            assert(middle(there, o));
        }
    }
    let written = crate::tools::multi_attempt::isolated_written(c);
    assert forall|r: ReplyView|
        ends_well(
            #[trigger] written(r),
            step,
            step(absent(), RequestView::WriteFile { path, content }, r),
            good,
        ) by {}
    let made = crate::tools::multi_attempt::isolated_made(c, content);
    assert forall|r: ReplyView|
        ends_well(
            #[trigger] made(r),
            step,
            step(absent(), RequestView::MakeDirectory { path: ".lake/_mcp"@ }, r),
            good,
        ) by {}
}

/// Code that is run leaves nothing of the file in which it was.
pub proof fn lemma_run_code_cleans_up(path: Seq<char>, c: CodeView)
    ensures
        ends_well(
            run_dialogue(path, c),
            temp_step(path),
            absent(),
            |s: TempState, o: RunSaid| s == absent(),
        ),
{
    let step = temp_step(path);
    let good = |s: TempState, o: RunSaid| s == absent();
    let there = TempState { written: true, opened: true };
    assert forall|res: RunSaid| ends_well(#[trigger] run_clean(path, res), step, there, good) by {
        reveal_with_fuel(ends_well, 4);
    }
    assert forall|content: Seq<char>, n: usize|
        ends_well(#[trigger] run_write(path, content, n), step, absent(), good) by {
        reveal_with_fuel(ends_well, 4);
    }
    reveal_with_fuel(ends_well, 4);
}

/// Profiling a theorem leaves nothing of the file that is written for it.
pub proof fn lemma_profile_cleans_up(
    path: Seq<char>,
    theorem_line: u32,
    temp_path: Seq<char>,
    seconds: Seq<char>,
)
    ensures
        ends_well(
            profile_dialogue(path, theorem_line, temp_path, seconds),
            temp_step(temp_path),
            absent(),
            |s: TempState, o: ProfileSaid| s == absent(),
        ),
{
    reveal_with_fuel(ends_well, 6);
}

// ---------------------------------------------------------------------------
// Tools that only look
// ---------------------------------------------------------------------------

/// Whether a request changes no file, neither on disk nor in the language server:
/// of all programs only ripgrep changes none.
pub open spec fn looks(q: RequestView) -> bool {
    match q {
        RequestView::UpdateFile { .. } => false,
        RequestView::ReplaceContent { .. } => false,
        RequestView::MakeDirectory { .. } => false,
        RequestView::WriteFile { .. } => false,
        RequestView::RemoveFile { .. } => false,
        RequestView::RunCommand { program, .. } => program == "rg"@,
        RequestView::RunLimited { .. } => false,
        _ => true,
    }
}

/// The requests that change no file.
pub open spec fn looking() -> spec_fn(RequestView) -> bool {
    |q: RequestView| looks(q)
}

/// Whether a tool is one that changes no file.
pub open spec fn only_looks(tool: Tool) -> bool {
    match tool {
        Tool::MultiAttempt => false,
        Tool::RunCode => false,
        Tool::Verify => false,
        Tool::Build => false,
        Tool::Profile => false,
        _ => true,
    }
}

/// Reading code actions changes no file.
proof fn lemma_resolve_looks(actions: Seq<JsonView>, i: nat, done: Seq<CodeActionView>)
    ensures
        asks_only(resolve_from(actions, i, done), looking()),
    decreases actions.len() - i,
{
    if i < actions.len() {
        lemma_resolve_looks(actions, i + 1, done.push(action_of(actions[i as int])));
        let k = action_resolved(actions, i, done);
        assert forall|r: ReplyView| asks_only(#[trigger] k(r), looking()) by {
            if let ReplyView::Value(action) = r {
                lemma_resolve_looks(actions, i + 1, done.push(action_of(action)));
            }
        }
    }
}

/// Collecting code actions changes no file.
proof fn lemma_collect_looks(path: Seq<char>, ranges: Seq<LspRange>, i: nat, kept: Seq<JsonView>)
    ensures
        asks_only(collect_from(path, ranges, i, kept), looking()),
    decreases ranges.len() - i,
{
    lemma_resolve_looks(kept, 0, Seq::empty());
    if i < ranges.len() {
        let k = actions_told(path, ranges, i, kept);
        assert forall|r: ReplyView| asks_only(#[trigger] k(r), looking()) by {
            if let ReplyView::Values(actions) = r {
                lemma_collect_looks(path, ranges, i + 1, with_actions(kept, actions));
            }
        }
    }
}

/// Looking for code actions changes no file.
proof fn lemma_actions_look(path: Seq<char>, line: u32)
    ensures
        asks_only(actions_dialogue(path, line), looking()),
{
    assert forall|ranges: Seq<LspRange>|
        asks_only(#[trigger] collect_from(path, ranges, 0, Seq::empty()), looking()) by {
        lemma_collect_looks(path, ranges, 0, Seq::empty());
    }
    reveal_with_fuel(asks_only, 4);
}

/// Looking for the goals of `sorry`s changes no file.
proof fn lemma_enrich_looks(scan: ScanView, sorries: Seq<SorryLocationView>, i: nat)
    ensures
        asks_only(enrich_from(scan, sorries, i), looking()),
    decreases sorries.len() - i,
{
    if i < sorries.len() {
        lemma_enrich_looks(scan, sorries, i + 1);
        let told = sorry_goals(scan, sorries, i);
        assert forall|r: ReplyView| asks_only(#[trigger] told(r), looking()) by {
            if let ReplyView::Texts(goals) = r {
                lemma_enrich_looks(
                    scan,
                    sorries.update(i as int, with_goal(sorries[i as int], goals)),
                    i + 1,
                );
            }
        }
        let read = sorry_read(scan, sorries, i);
        assert forall|r: ReplyView| asks_only(#[trigger] read(r), looking()) by {}
        let opened = sorry_opened(scan, sorries, i);
        assert forall|r: ReplyView| asks_only(#[trigger] opened(r), looking()) by {}
    }
}

/// Looking at the project's health changes no file.
proof fn lemma_health_looks(with_goals: bool)
    ensures
        asks_only(health_dialogue(with_goals), looking()),
{
    assert forall|scan: ScanView, sorries: Seq<SorryLocationView>|
        asks_only(#[trigger] enrich_from(scan, sorries, 0), looking()) by {
        lemma_enrich_looks(scan, sorries, 0);
    }
    reveal_with_fuel(asks_only, 6);
}

/// Reading files changes none.
proof fn lemma_read_looks(
    files: Seq<Seq<char>>,
    troubles: Seq<Option<Seq<char>>>,
    i: nat,
    done: FilesSaid,
)
    ensures
        asks_only(read_from(files, troubles, i, done), looking()),
    decreases files.len() - i,
{
    if i < files.len() {
        if let Some(m) = troubles[i as int] {
            lemma_read_looks(files, troubles, i + 1, done.push(Err(m)));
        } else {
            let k = content_came(files, troubles, i, done);
            assert forall|r: ReplyView| asks_only(#[trigger] k(r), looking()) by {
                lemma_read_looks(files, troubles, i + 1, done.push(content_said(r)));
            }
        }
    }
}

/// Opening files and reading them changes none.
proof fn lemma_open_looks(files: Seq<Seq<char>>, troubles: Seq<Option<Seq<char>>>, i: nat)
    ensures
        asks_only(open_from(files, troubles, i), looking()),
    decreases files.len() - i,
{
    if i < files.len() {
        let k = file_open(files, troubles, i);
        assert forall|r: ReplyView| asks_only(#[trigger] k(r), looking()) by {
            lemma_open_looks(files, troubles.push(open_trouble(r)), i + 1);
        }
    } else {
        lemma_read_looks(files, troubles, 0, Seq::empty());
    }
}

/// [`Tool::Goal`] changes no file.
proof fn lemma_goal_looks(call: ToolCall, s: SettingsView)
    requires
        call is Goal,
    ensures
        asks_only(tool_dialogue(call, s), looking()),
{
    reveal_with_fuel(asks_only, 8);
    reveal_with_fuel(followed, 8);
}

/// [`Tool::TermGoal`] changes no file.
proof fn lemma_term_goal_looks(call: ToolCall, s: SettingsView)
    requires
        call is TermGoal,
    ensures
        asks_only(tool_dialogue(call, s), looking()),
{
    reveal_with_fuel(asks_only, 8);
    reveal_with_fuel(followed, 8);
}

/// [`Tool::Hover`] changes no file.
proof fn lemma_hover_looks(call: ToolCall, s: SettingsView)
    requires
        call is Hover,
    ensures
        asks_only(tool_dialogue(call, s), looking()),
{
    reveal_with_fuel(asks_only, 8);
    reveal_with_fuel(followed, 8);
}

/// [`Tool::Completions`] changes no file.
proof fn lemma_completions_looks(call: ToolCall, s: SettingsView)
    requires
        call is Completions,
    ensures
        asks_only(tool_dialogue(call, s), looking()),
{
    reveal_with_fuel(asks_only, 8);
    reveal_with_fuel(followed, 8);
}

/// [`Tool::Diagnostics`] changes no file.
proof fn lemma_diagnostics_looks(call: ToolCall, s: SettingsView)
    requires
        call is Diagnostics,
    ensures
        asks_only(tool_dialogue(call, s), looking()),
{
    reveal_with_fuel(asks_only, 8);
    reveal_with_fuel(followed, 8);
}

/// [`Tool::Outline`] changes no file.
proof fn lemma_outline_looks(call: ToolCall, s: SettingsView)
    requires
        call is Outline,
    ensures
        asks_only(tool_dialogue(call, s), looking()),
{
    reveal_with_fuel(asks_only, 8);
    reveal_with_fuel(followed, 8);
}

/// [`Tool::Declaration`] changes no file.
proof fn lemma_declaration_looks(call: ToolCall, s: SettingsView)
    requires
        call is Declaration,
    ensures
        asks_only(tool_dialogue(call, s), looking()),
{
    reveal_with_fuel(asks_only, 8);
    reveal_with_fuel(followed, 8);
}

/// [`Tool::References`] changes no file.
proof fn lemma_references_looks(call: ToolCall, s: SettingsView)
    requires
        call is References,
    ensures
        asks_only(tool_dialogue(call, s), looking()),
{
    reveal_with_fuel(asks_only, 8);
    reveal_with_fuel(followed, 8);
}

/// [`Tool::StateSearch`] changes no file.
proof fn lemma_state_search_looks(call: ToolCall, s: SettingsView)
    requires
        call is StateSearch,
    ensures
        asks_only(tool_dialogue(call, s), looking()),
{
    reveal_with_fuel(asks_only, 8);
    reveal_with_fuel(followed, 8);
}

/// [`Tool::Premises`] changes no file.
proof fn lemma_premises_looks(call: ToolCall, s: SettingsView)
    requires
        call is Premises,
    ensures
        asks_only(tool_dialogue(call, s), looking()),
{
    reveal_with_fuel(asks_only, 8);
    reveal_with_fuel(followed, 8);
}

/// [`Tool::Widgets`] changes no file.
proof fn lemma_widgets_looks(call: ToolCall, s: SettingsView)
    requires
        call is Widgets,
    ensures
        asks_only(tool_dialogue(call, s), looking()),
{
    reveal_with_fuel(asks_only, 8);
    reveal_with_fuel(followed, 8);
}

/// [`Tool::WidgetSource`] changes no file.
proof fn lemma_widget_source_looks(call: ToolCall, s: SettingsView)
    requires
        call is WidgetSource,
    ensures
        asks_only(tool_dialogue(call, s), looking()),
{
    reveal_with_fuel(asks_only, 8);
    reveal_with_fuel(followed, 8);
}

/// [`Tool::ProofDiff`] changes no file.
proof fn lemma_proof_diff_looks(call: ToolCall, s: SettingsView)
    requires
        call is ProofDiff,
    ensures
        asks_only(tool_dialogue(call, s), looking()),
{
    reveal_with_fuel(asks_only, 8);
    reveal_with_fuel(followed, 8);
}

/// [`Tool::LeanSearch`] changes no file.
proof fn lemma_lean_search_looks(call: ToolCall, s: SettingsView)
    requires
        call is LeanSearch,
    ensures
        asks_only(tool_dialogue(call, s), looking()),
{
    reveal_with_fuel(asks_only, 8);
    reveal_with_fuel(followed, 8);
}

/// [`Tool::Loogle`] changes no file.
proof fn lemma_loogle_looks(call: ToolCall, s: SettingsView)
    requires
        call is Loogle,
    ensures
        asks_only(tool_dialogue(call, s), looking()),
{
    reveal_with_fuel(asks_only, 8);
    reveal_with_fuel(followed, 8);
}

/// [`Tool::LeanFinder`] changes no file.
proof fn lemma_lean_finder_looks(call: ToolCall, s: SettingsView)
    requires
        call is LeanFinder,
    ensures
        asks_only(tool_dialogue(call, s), looking()),
{
    reveal_with_fuel(asks_only, 8);
    reveal_with_fuel(followed, 8);
}

/// [`Tool::LocalSearch`] changes no file.
proof fn lemma_local_search_looks(call: ToolCall, s: SettingsView)
    requires
        call is LocalSearch,
    ensures
        asks_only(tool_dialogue(call, s), looking()),
{
    reveal_with_fuel(asks_only, 8);
    reveal_with_fuel(followed, 8);
}

/// Goals, hovers, completions, diagnostics, outlines, declarations, references,
/// searches, code actions, widgets, differences of goals and the project's health
/// are looked at without a change to any file.
pub proof fn lemma_looking_changes_nothing(call: ToolCall, s: SettingsView)
    requires
        only_looks(tool_of(call)),
    ensures
        asks_only(tool_dialogue(call, s), looking()),
{
    match call {
        ToolCall::CodeActions(p) => {
            lemma_actions_look(p.file_path@, p.line);
            lemma_followed_asks_only(
                actions_dialogue(p.file_path@, p.line),
                crate::tools::toolbox::code_actions_ended(),
                looking(),
            );
        },
        ToolCall::ProjectHealth(p) => {
            let goals = crate::tools::toolbox::flag_or(p.include_goals, false);
            lemma_health_looks(goals);
            lemma_followed_asks_only(
                health_dialogue(goals),
                crate::tools::toolbox::project_health_ended(),
                looking(),
            );
        },
        ToolCall::GoalsBatch(p) => {
            let positions = crate::models::all_views(p.positions@);
            let files = crate::tools::batch_goals::files_of(positions);
            lemma_open_looks(files, Seq::empty(), 0);
            lemma_followed_asks_only(
                files_dialogue(files),
                crate::tools::toolbox::goals_batch_ended(positions),
                looking(),
            );
        },
        ToolCall::Goal(_) => lemma_goal_looks(call, s),
        ToolCall::TermGoal(_) => lemma_term_goal_looks(call, s),
        ToolCall::Hover(_) => lemma_hover_looks(call, s),
        ToolCall::Completions(_) => lemma_completions_looks(call, s),
        ToolCall::Diagnostics(_) => lemma_diagnostics_looks(call, s),
        ToolCall::Outline(_) => lemma_outline_looks(call, s),
        ToolCall::Declaration(_) => lemma_declaration_looks(call, s),
        ToolCall::References(_) => lemma_references_looks(call, s),
        ToolCall::StateSearch(_) => lemma_state_search_looks(call, s),
        ToolCall::Premises(_) => lemma_premises_looks(call, s),
        ToolCall::Widgets(_) => lemma_widgets_looks(call, s),
        ToolCall::WidgetSource(_) => lemma_widget_source_looks(call, s),
        ToolCall::ProofDiff(_) => lemma_proof_diff_looks(call, s),
        ToolCall::LeanSearch(_) => lemma_lean_search_looks(call, s),
        ToolCall::Loogle(_) => lemma_loogle_looks(call, s),
        ToolCall::LeanFinder(_) => lemma_lean_finder_looks(call, s),
        ToolCall::LocalSearch(_) => lemma_local_search_looks(call, s),
        _ => {},
    }
}

/// The same holds of the whole way on which such a call is served.
pub proof fn lemma_serving_changes_nothing(
    call: ToolCall,
    set: Option<Seq<char>>,
    s: SettingsView,
)
    requires
        only_looks(tool_of(call)),
    ensures
        asks_only(serve_dialogue(call, set, s), looking()),
{
    assert forall|c: ToolCall| tool_of(c) == tool_of(call) implies asks_only(
        #[trigger] answer_dialogue(c, s),
        looking(),
    ) by {
        lemma_looking_changes_nothing(c, s);
        let f = crate::tools::toolbox::tool_ran();
        assert forall|o: crate::tools::toolbox::RanSaid| asks_only(#[trigger] f(o), looking()) by {
            reveal_with_fuel(asks_only, 3);
        }
        lemma_followed_asks_only(tool_dialogue(c, s), f, looking());
    }
    if crate::server::place_of(call) != Place::Anywhere {
        let file = crate::server::file_of(call);
        let f = project_found(call, s);
        assert(asks_only(project_dialogue(set, file), looking())) by {
            reveal_with_fuel(asks_only, 4);
        }
        let entered = crate::server::project_entered(call, s);
        assert forall|r: ReplyView| asks_only(#[trigger] entered(r), looking()) by {
            match (file, crate::server::declaration_of(call)) {
                (Some(path), Some(name)) => {
                    let d = crate::tools::symbol_resolve::line_dialogue(path, name);
                    let g = crate::server::line_found(call, s);
                    assert(asks_only(d, looking())) by {
                        reveal_with_fuel(asks_only, 6);
                        reveal_with_fuel(followed, 6);
                    }
                    assert forall|o: Result<u32, ErrorView>|
                        asks_only(#[trigger] g(o), looking()) by {
                        reveal_with_fuel(asks_only, 3);
                    }
                    lemma_followed_asks_only(d, g, looking());
                },
                _ => {},
            }
        }
        assert forall|o: ProjectSaid| asks_only(#[trigger] f(o), looking()) by {}
        lemma_followed_asks_only(project_dialogue(set, file), f, looking());
    }
}

// ---------------------------------------------------------------------------
// Limits
// ---------------------------------------------------------------------------

/// Nothing of the surroundings counts.
pub open spec fn ignoring() -> spec_fn((), RequestView, ReplyView) -> () {
    |s: (), q: RequestView, r: ReplyView| ()
}

/// No outline has more declarations than were asked for, and where it tells how
/// many there are in all, it has exactly as many as were asked for.
pub proof fn lemma_outline_limited(path: Seq<char>, max: usize)
    ensures
        ends_well(
            outline_dialogue(path, Some(max)),
            ignoring(),
            (),
            |s: (), o: OutlineSaid|
                o matches Ok(v) ==> v.declarations.len() <= max && (v.total_declarations is Some
                    ==> v.declarations.len() == max),
        ),
{
    reveal_with_fuel(ends_well, 5);
    reveal_with_fuel(followed, 5);
}

/// No more completions come back than were asked for.
pub proof fn lemma_completions_limited(path: Seq<char>, line: u32, column: u32, max: usize)
    ensures
        ends_well(
            completions_dialogue(path, line, column, max),
            ignoring(),
            (),
            |s: (), o: CompletionsSaid| o matches Ok(v) ==> v.items.len() <= max,
        ),
{
    reveal_with_fuel(ends_well, 6);
    reveal_with_fuel(followed, 6);
}

/// What is picked out of a sequence is no longer than it.
proof fn lemma_filter_map_shorter<A, B>(s: Seq<A>, f: spec_fn(A) -> Option<B>)
    ensures
        s.filter_map(f).len() <= s.len(),
    decreases s.len(),
{
    if s.len() > 0 {
        let n = s.len() - 1;
        lemma_filter_map_next(s, f, n);
        lemma_take_all(s);
        lemma_filter_map_shorter(s.take(n), f);
    }
}

/// No more hits of Loogle come back than were asked for.
pub proof fn lemma_loogle_limited(query: Seq<char>, num_results: nat, url: Seq<char>)
    ensures
        ends_well(
            loogle_dialogue(query, num_results, url),
            ignoring(),
            (),
            |s: (), o: LoogleSaid| o matches Ok(v) ==> v.items.len() <= num_results,
        ),
{
    assert forall|v: JsonView| (#[trigger] loogle_hits(v, num_results)).len() <= num_results by {
        if let Some(hits) = items_member(v, "hits"@) {
            let n = if num_results <= hits.len() {
                num_results as int
            } else {
                hits.len() as int
            };
            lemma_filter_map_shorter(hits.take(n), |h: JsonView| loogle_hit(h));
        }
    }
    reveal_with_fuel(ends_well, 3);
}

// ---------------------------------------------------------------------------
// The files of a batch
// ---------------------------------------------------------------------------

/// The files that were opened so far.
pub open spec fn opening() -> spec_fn(Seq<Seq<char>>, RequestView, ReplyView) -> Seq<Seq<char>> {
    |s: Seq<Seq<char>>, q: RequestView, r: ReplyView|
        match q {
            RequestView::OpenFile { path } => s.push(path),
            _ => s,
        }
}

/// Whether the files of some positions were asked for, each of them once.
pub open spec fn opened_once(positions: Seq<BatchGoalPositionView>) -> spec_fn(
    Seq<Seq<char>>,
    FilesSaid,
) -> bool {
    |s: Seq<Seq<char>>, o: FilesSaid|
        s.no_duplicates() && forall|i: int|
            0 <= i < positions.len() ==> s.contains((#[trigger] positions[i]).file_path)
}

/// Reading the files of a batch opens no more of them.
proof fn lemma_reading_opens_none(
    positions: Seq<BatchGoalPositionView>,
    troubles: Seq<Option<Seq<char>>>,
    i: nat,
    done: FilesSaid,
)
    requires
        (opened_once(positions))(files_of(positions), Seq::empty()),
    ensures
        ends_well(
            read_from(files_of(positions), troubles, i, done),
            opening(),
            files_of(positions),
            opened_once(positions),
        ),
    decreases files_of(positions).len() - i,
{
    let files = files_of(positions);
    if i < files.len() {
        if let Some(m) = troubles[i as int] {
            lemma_reading_opens_none(positions, troubles, i + 1, done.push(Err(m)));
        } else {
            let k = content_came(files, troubles, i, done);
            assert forall|r: ReplyView| ends_well(
                #[trigger] k(r),
                opening(),
                files,
                opened_once(positions),
            ) by {
                lemma_reading_opens_none(
                    positions,
                    troubles,
                    i + 1,
                    done.push(content_said(r)),
                );
            }
        }
    }
}

/// Opening the files of a batch from number `i` on opens each of them once.
proof fn lemma_opening_goes_on(
    positions: Seq<BatchGoalPositionView>,
    troubles: Seq<Option<Seq<char>>>,
    i: nat,
)
    requires
        files_of(positions).no_duplicates(),
        forall|j: int|
            0 <= j < positions.len() ==> files_of(positions).contains(
                (#[trigger] positions[j]).file_path,
            ),
        i <= files_of(positions).len(),
    ensures
        ends_well(
            open_from(files_of(positions), troubles, i),
            opening(),
            files_of(positions).take(i as int),
            opened_once(positions),
        ),
    decreases files_of(positions).len() - i,
{
    let files = files_of(positions);
    if i < files.len() {
        assert(files.take((i + 1) as int) =~= files.take(i as int).push(files[i as int]));
        let k = file_open(files, troubles, i);
        assert forall|r: ReplyView| ends_well(
            #[trigger] k(r),
            opening(),
            files.take((i + 1) as int),
            opened_once(positions),
        ) by {
            lemma_opening_goes_on(positions, troubles.push(open_trouble(r)), i + 1);
        }
    } else {
        lemma_take_all(files);
        lemma_reading_opens_none(positions, troubles, 0, Seq::empty());
    }
}

/// Of the files whose goals are asked for at many positions, each is opened once,
/// before the first goal is asked for, whichever of them fail.
pub proof fn lemma_each_file_opened_once(positions: Seq<BatchGoalPositionView>)
    ensures
        ends_well(
            files_dialogue(files_of(positions)),
            opening(),
            Seq::empty(),
            opened_once(positions),
        ),
{
    let paths = paths_of(positions);
    lemma_first_occurrences(paths);
    assert forall|j: int| 0 <= j < positions.len() implies files_of(positions).contains(
        (#[trigger] positions[j]).file_path,
    ) by {
        assert(paths[j] == positions[j].file_path);
    }
    assert(files_of(positions).take(0) =~= Seq::empty());
    lemma_opening_goes_on(positions, Seq::empty(), 0);
}

/// What the language server replied about one file of a batch.
pub struct FileReplies {
    /// When it was to be opened.
    pub opened: Option<ReplyView>,
    /// When its content was asked for.
    pub content: Option<ReplyView>,
}

/// The replies about a file that came so far.
pub open spec fn about_file(path: Seq<char>) -> spec_fn(
    FileReplies,
    RequestView,
    ReplyView,
) -> FileReplies {
    |s: FileReplies, q: RequestView, r: ReplyView|
        if q == (RequestView::OpenFile { path }) {
            FileReplies { opened: Some(r), content: s.content }
        } else if q == (RequestView::FileContent { path }) {
            FileReplies { opened: s.opened, content: Some(r) }
        } else {
            s
        }
}

/// What the replies about a file come to.
pub open spec fn file_outcome(s: FileReplies) -> FileSaid {
    match open_trouble(s.opened->0) {
        Some(m) => Err(m),
        None => content_said(s.content->0),
    }
}

/// Whether the outcome for the file with number `k` is what the replies about it
/// come to.
pub open spec fn told_of_itself(files: Seq<Seq<char>>, k: int) -> spec_fn(
    FileReplies,
    FilesSaid,
) -> bool {
    |s: FileReplies, o: FilesSaid|
        s.opened is Some && o.len() == files.len() && o[k] == file_outcome(s)
}

/// Reading the files of a batch from number `i` on tells each of itself.
proof fn lemma_reading_apart(
    files: Seq<Seq<char>>,
    troubles: Seq<Option<Seq<char>>>,
    i: nat,
    done: FilesSaid,
    k: int,
    s: FileReplies,
)
    requires
        files.no_duplicates(),
        0 <= k < files.len(),
        troubles.len() == files.len(),
        i <= files.len(),
        done.len() == i,
        s.opened is Some,
        troubles[k] == open_trouble(s.opened->0),
        k < i ==> done[k] == file_outcome(s),
    ensures
        ends_well(
            read_from(files, troubles, i, done),
            about_file(files[k]),
            s,
            told_of_itself(files, k),
        ),
    decreases files.len() - i,
{
    let step = about_file(files[k]);
    let good = told_of_itself(files, k);
    if i < files.len() {
        if let Some(m) = troubles[i as int] {
            lemma_reading_apart(files, troubles, i + 1, done.push(Err(m)), k, s);
        } else {
            let came = content_came(files, troubles, i, done);
            let q = RequestView::FileContent { path: files[i as int] };
            assert forall|r: ReplyView|
                ends_well(#[trigger] came(r), step, step(s, q, r), good) by {
                lemma_reading_apart(
                    files,
                    troubles,
                    i + 1,
                    done.push(content_said(r)),
                    k,
                    step(s, q, r),
                );
            }
        }
    }
}

/// Opening the files of a batch from number `i` on, and reading them, tells each
/// of itself.
proof fn lemma_opening_apart(
    files: Seq<Seq<char>>,
    troubles: Seq<Option<Seq<char>>>,
    i: nat,
    k: int,
    s: FileReplies,
)
    requires
        files.no_duplicates(),
        0 <= k < files.len(),
        i <= files.len(),
        troubles.len() == i,
        k < i ==> s.opened is Some && troubles[k] == open_trouble(s.opened->0),
    ensures
        ends_well(
            open_from(files, troubles, i),
            about_file(files[k]),
            s,
            told_of_itself(files, k),
        ),
    decreases files.len() - i,
{
    let step = about_file(files[k]);
    let good = told_of_itself(files, k);
    if i < files.len() {
        let opened = file_open(files, troubles, i);
        let q = RequestView::OpenFile { path: files[i as int] };
        assert forall|r: ReplyView|
            ends_well(#[trigger] opened(r), step, step(s, q, r), good) by {
            lemma_opening_apart(files, troubles.push(open_trouble(r)), i + 1, k, step(s, q, r));
        }
    } else {
        lemma_reading_apart(files, troubles, 0, Seq::empty(), k, s);
    }
}

/// What comes of a file of a batch depends on nothing but what the language server
/// replies about that file: whichever others fail, it comes out as if they were
/// not there.
pub proof fn lemma_files_apart(positions: Seq<BatchGoalPositionView>, k: int)
    requires
        0 <= k < files_of(positions).len(),
    ensures
        ends_well(
            files_dialogue(files_of(positions)),
            about_file(files_of(positions)[k]),
            (FileReplies { opened: None, content: None }),
            told_of_itself(files_of(positions), k),
        ),
{
    lemma_first_occurrences(paths_of(positions));
    lemma_opening_apart(
        files_of(positions),
        Seq::empty(),
        0,
        k,
        FileReplies { opened: None, content: None },
    );
}

} // verus!
