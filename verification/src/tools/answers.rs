//! What the tools tell, in terms of what they asked for and were replied.
use crate::error::ErrorView;
use crate::json::{int_at, items_member, text_member, JsonView};
use crate::models::{AttemptResultView, DiagnosticMessageView, MultiAttemptResultView};
use crate::protocol::{
    ends_well, followed, lemma_ends_both, lemma_followed_ends_well, Dialogue, ReplyView,
    RequestView,
};
use crate::text::{
    byte_len, join_of, lemma_byte_len_chars, lines_of, split_of, trim_end_char_of, trim_start_of,
};
use crate::tools::multi_attempt::{
    attempt_checked, attempt_edited, attempt_restored, attempts_from, check_dialogue, check_of,
    column_of, edit_of, isolated_code, isolated_dialogue, leave_file, line_or_empty, lsp_dialogue,
    lsp_outcome, lsp_read, meets_lines, messages_of, multi_attempt_dialogue, parallel_dialogue,
    plan_outcome, repl_dialogue, repl_outcome, run_edit, warm_dialogue, AttemptsSaid, AttemptsView,
    CheckView, PlanSaid, ReplSaid, RunView, ToolSaid,
};
use vstd::prelude::*;

verus! {

// ---------------------------------------------------------------------------
// What was asked for and replied
// ---------------------------------------------------------------------------

/// All that a tool asked for so far, each request with its reply.
pub type Heard = Seq<(RequestView, ReplyView)>;

/// One more request and its reply.
pub open spec fn hearing() -> spec_fn(Heard, RequestView, ReplyView) -> Heard {
    |h: Heard, q: RequestView, r: ReplyView| h.push((q, r))
}

/// Nothing was asked for yet.
pub open spec fn unheard() -> Heard {
    Seq::empty()
}

/// What a request comes to that failed: the operation, and the words of the failure.
pub open spec fn fault(operation: Seq<char>, r: ReplyView) -> ErrorView {
    ErrorView::LspError {
        operation,
        message: match r {
            ReplyView::Failed(words) => words,
            _ => Seq::empty(),
        },
    }
}

/// Whether a number that is shown counts from 1 what `n` counts from 0.
pub open spec fn counted_from_one(shown: i64, n: int) -> bool {
    i64::MIN <= n < i64::MAX ==> shown == n + 1
}

/// Whether more was asked for after `h`, and nothing else before.
pub open spec fn goes_on<O>(h: Heard) -> spec_fn(Heard, O) -> bool {
    |t: Heard, o: O| h.len() <= t.len() && t.take(h.len() as int) == h
}

/// What was asked for and replied stays so.
pub proof fn lemma_goes_on<O>(d: Dialogue<O>, h: Heard)
    ensures
        ends_well(d, hearing(), h, goes_on::<O>(h)),
    decreases d,
{
    match d {
        Dialogue::Ask(q, k) => {
            assert forall|r: ReplyView|
                ends_well(#[trigger] k(r), hearing(), h.push((q, r)), goes_on::<O>(h)) by {
                let h1 = h.push((q, r));
                lemma_goes_on(k(r), h1);
                assert forall|t: Heard, o: O| #[trigger]
                    (goes_on::<O>(h1))(t, o) implies (goes_on::<O>(h))(t, o) by {
                    assert(t.take(h.len() as int) =~= h) by {
                        assert forall|j: int| 0 <= j < h.len() implies t[j] == h[j] by {
                            assert(t.take(h1.len() as int)[j] == h1[j]);
                        }
                    }
                }
                lemma_ends_both(
                    k(r),
                    hearing(),
                    h1,
                    goes_on::<O>(h1),
                    goes_on::<O>(h1),
                    goes_on::<O>(h),
                );
            }
        },
        Dialogue::Finish(o) => {
            assert(h.take(h.len() as int) =~= h);
        },
    }
}

// ---------------------------------------------------------------------------
// Trying snippets
// ---------------------------------------------------------------------------

/// The messages that a reply with diagnostics brings for some lines (from 0).
pub open spec fn messages_between(raw: JsonView, first: u32, last: u32) -> Seq<
    DiagnosticMessageView,
> {
    messages_of(
        match items_member(raw, "diagnostics"@) {
            Some(ds) => ds,
            None => Seq::empty(),
        }.filter(|d: JsonView| meets_lines(d, first, last)),
    )
}

/// Whether an attempt tells what was replied about it, from number `k` on: first the
/// diagnostics of the file, then the goals at the snippet's end. All goals that came
/// are told, in their order, and all messages of the snippet's lines.
pub open spec fn tells_replies(h: Heard, k: int, c: CheckView, a: AttemptResultView) -> bool {
    &&& k + 2 <= h.len()
    &&& h[k].0 == (RequestView::Diagnostics {
        path: c.path,
        start_line: None,
        end_line: None,
        bounded: true,
    })
    &&& h[k].1 matches ReplyView::Value(raw) && a.diagnostics == messages_between(
        raw,
        c.first_line,
        c.last_line,
    )
    &&& h[k + 1].0 == (RequestView::Goal {
        path: c.path,
        line: c.goal_line,
        column: c.goal_column,
    })
    &&& h[k + 1].1 == ReplyView::Texts(a.goals)
    &&& a.snippet == c.snippet
    &&& !a.timed_out
}

/// Whether a look at a snippet failed: a reply was not of the kind that was wanted.
pub open spec fn look_failed(h: Heard, k: int) -> bool {
    k < h.len() && match h.last().0 {
        RequestView::Diagnostics { .. } => !(h.last().1 is Value),
        RequestView::Goal { .. } => !(h.last().1 is Texts),
        _ => false,
    }
}

/// Whether an attempt tells nothing but one message.
pub open spec fn only_says(
    a: AttemptResultView,
    snippet: Seq<char>,
    severity: Seq<char>,
    message: Seq<char>,
) -> bool {
    &&& a.snippet == snippet
    &&& a.goals.len() == 0
    &&& a.diagnostics.len() == 1
    &&& a.diagnostics[0] == (DiagnosticMessageView { severity, message, line: 0, column: 0 })
}

/// Whether an attempt tells that it ran out of its time.
pub open spec fn says_late(a: AttemptResultView, snippet: Seq<char>, seconds: Seq<char>) -> bool {
    a.timed_out && only_says(
        a,
        snippet,
        "warning"@,
        "Tactic timed out after "@ + seconds + "s"@,
    )
}

/// Whether an attempt tells of the reply that failed it: that it ran out of its time, where
/// it had any; else the error of the operation, in the words into which it was put last.
pub open spec fn says_fault(
    h: Heard,
    a: AttemptResultView,
    snippet: Seq<char>,
    limit: Option<Seq<char>>,
    operation: Seq<char>,
    r: ReplyView,
) -> bool {
    if limit is Some && r is TimedOut {
        says_late(a, snippet, limit->0)
    } else {
        &&& h.last().0 == (RequestView::ErrorText { error: fault(operation, r) })
        &&& !a.timed_out
        &&& only_says(
            a,
            snippet,
            "error"@,
            match h.last().1 {
                ReplyView::Text(words) => words,
                _ => Seq::empty(),
            },
        )
    }
}

/// How a look at a snippet is to end, which begins after `h`: where a reply is missing,
/// with an error, or with an attempt that ran out of time; else with all goals and
/// messages that were replied.
pub open spec fn check_told(c: CheckView, h: Heard) -> spec_fn(
    Heard,
    Result<AttemptResultView, ErrorView>,
) -> bool {
    |t: Heard, o: Result<AttemptResultView, ErrorView>|
        {
            &&& h.len() <= t.len()
            &&& t.take(h.len() as int) == h
            &&& look_failed(t, h.len() as int) ==> if c.limit is Some && t.last().1 is TimedOut {
                o is Ok && says_late(o->Ok_0, c.snippet, c.limit->0)
            } else {
                o == Err::<AttemptResultView, ErrorView>(
                    fault(
                        if t.last().0 is Diagnostics {
                            "get_diagnostics"@
                        } else {
                            "get_goal"@
                        },
                        t.last().1,
                    ),
                )
            }
            &&& !look_failed(t, h.len() as int) ==> t.len() == h.len() + 2 && o is Ok
                && tells_replies(t, h.len() as int, c, o->Ok_0)
        }
}

/// A look at a snippet tells all goals and messages that were replied, unless a reply
/// is missing.
pub proof fn lemma_check_tells(c: CheckView, h: Heard)
    ensures
        ends_well(check_dialogue(c), hearing(), h, check_told(c, h)),
{
    reveal_with_fuel(ends_well, 4);
    let n = h.len() as int;
    let q1 = RequestView::Diagnostics {
        path: c.path,
        start_line: None,
        end_line: None,
        bounded: true,
    };
    let q2 = RequestView::Goal { path: c.path, line: c.goal_line, column: c.goal_column };
    assert forall|r: ReplyView| (#[trigger] h.push((q1, r))).take(n) == h by {
        assert(h.push((q1, r)).take(n) =~= h);
    }
    assert forall|r: ReplyView, r2: ReplyView|
        (#[trigger] h.push((q1, r)).push((q2, r2))).take(n) == h by {
        assert(h.push((q1, r)).push((q2, r2)).take(n) =~= h);
    }
}

/// Where a snippet is looked at that an edit put into line `line` (from 1) of a file:
/// its diagnostics on the lines from that one to its end, and its goals at its end.
pub open spec fn edited_place(
    path: Seq<char>,
    content: Seq<char>,
    line: u32,
    column: u32,
    snippet: Seq<char>,
    limit: Option<Seq<char>>,
) -> CheckView {
    let lines = lines_of(content);
    let e = edit_of(line_or_empty(lines, line), column, snippet, lines.len(), line);
    CheckView {
        path,
        snippet: trim_end_char_of(snippet, '\n'),
        first_line: (line - 1) as u32,
        last_line: e.goal_line,
        goal_line: e.goal_line,
        goal_column: e.goal_column,
        limit,
    }
}

/// Whether an attempt tells of a snippet that was tried in the file itself, from
/// number `k` on: it was put there, looked at, and the file was put back.
pub open spec fn tried_there(
    h: Heard,
    k: int,
    path: Seq<char>,
    content: Seq<char>,
    line: u32,
    column: u32,
    snippet: Seq<char>,
    a: AttemptResultView,
) -> bool {
    let lines = lines_of(content);
    let e = edit_of(line_or_empty(lines, line), column, snippet, lines.len(), line);
    &&& k + 4 <= h.len()
    &&& h[k] == (RequestView::UpdateFile { path, change: e.change }, ReplyView::Done)
    &&& tells_replies(h, k + 1, edited_place(path, content, line, column, snippet, None), a)
    &&& h[k + 3] == (RequestView::ReplaceContent { path, content }, ReplyView::Done)
}

/// Whether reply number `k` was not of the kind that was wanted, and an error tells so.
pub open spec fn missing_at(h: Heard, k: int, e: ErrorView) -> bool {
    &&& 0 <= k < h.len()
    &&& match h[k].0 {
        RequestView::OpenFile { .. } => !(h[k].1 is Done) && e == fault("open_file"@, h[k].1),
        RequestView::FileContent { .. } => !(h[k].1 is Text) && e == fault(
            "get_file_content"@,
            h[k].1,
        ),
        RequestView::UpdateFile { .. } => !(h[k].1 is Done) && e == fault("update_file"@, h[k].1),
        RequestView::ReplaceContent { .. } => !(h[k].1 is Done) && e == fault(
            "update_file_content"@,
            h[k].1,
        ),
        RequestView::Diagnostics { .. } => !(h[k].1 is Value) && e == fault(
            "get_diagnostics"@,
            h[k].1,
        ),
        RequestView::Goal { .. } => !(h[k].1 is Texts) && e == fault("get_goal"@, h[k].1),
        _ => false,
    }
}

/// Whether something went wrong while snippets were tried in the file itself, and an error
/// tells what.
pub open spec fn reply_missing(h: Heard, e: ErrorView) -> bool {
    exists|k: int| #[trigger] missing_at(h, k, e)
}

/// Whether attempts tell of snippets that were tried in the file itself, one after the
/// other and from number 2 on.
pub open spec fn all_tried(
    h: Heard,
    path: Seq<char>,
    content: Seq<char>,
    line: u32,
    column: u32,
    snippets: Seq<Seq<char>>,
    items: Seq<AttemptResultView>,
) -> bool {
    items.len() <= snippets.len() && forall|j: int|
        0 <= j < items.len() ==> tried_there(
            h,
            2 + 4 * j,
            path,
            content,
            line,
            column,
            snippets[j],
            #[trigger] items[j],
        )
}

/// How snippets that are tried in the file itself are to end.
pub open spec fn run_told(run: RunView) -> spec_fn(Heard, AttemptsSaid) -> bool {
    |h: Heard, o: AttemptsSaid|
        match o {
            Ok(m) => m.items.len() == run.snippets.len() && all_tried(
                h,
                run.path,
                run.content,
                run.line,
                run.target_col,
                run.snippets,
                m.items,
            ),
            Err(e) => reply_missing(h, e),
        }
}

/// What was told of snippets stays told when more is asked for.
proof fn lemma_still_tried(
    h: Heard,
    t: Heard,
    path: Seq<char>,
    content: Seq<char>,
    line: u32,
    column: u32,
    snippets: Seq<Seq<char>>,
    items: Seq<AttemptResultView>,
)
    requires
        all_tried(h, path, content, line, column, snippets, items),
        h.len() <= t.len(),
        t.take(h.len() as int) == h,
    ensures
        all_tried(t, path, content, line, column, snippets, items),
{
    assert forall|k: int| 0 <= k < h.len() implies h[k] == #[trigger] t[k] by {
        assert(t.take(h.len() as int)[k] == t[k]);
    }
    assert forall|j: int| 0 <= j < items.len() implies tried_there(
        t,
        2 + 4 * j,
        path,
        content,
        line,
        column,
        snippets[j],
        #[trigger] items[j],
    ) by {
        assert(tried_there(h, 2 + 4 * j, path, content, line, column, snippets[j], items[j]));
    }
}

/// The file is put back for good, and the outcome stays what it is.
proof fn lemma_left_told(run: RunView, res: AttemptsSaid, h: Heard)
    requires
        (run_told(run))(h, res),
    ensures
        ends_well(leave_file(run.path, run.content, res), hearing(), h, run_told(run)),
{
    reveal_with_fuel(ends_well, 4);
    let q1 = RequestView::ReplaceContent { path: run.path, content: run.content };
    let q2 = RequestView::ReopenFile { path: run.path };
    assert forall|r: ReplyView, r2: ReplyView|
        (run_told(run))(#[trigger] h.push((q1, r)).push((q2, r2)), res) by {
        let t = h.push((q1, r)).push((q2, r2));
        assert(t.take(h.len() as int) =~= h);
        match res {
            Ok(m) => {
                lemma_still_tried(
                    h,
                    t,
                    run.path,
                    run.content,
                    run.line,
                    run.target_col,
                    run.snippets,
                    m.items,
                );
            },
            Err(e) => {
                lemma_still_missing(h, t, e);
            },
        }
    }
}

/// What is missing stays missing.
proof fn lemma_still_missing(h: Heard, t: Heard, e: ErrorView)
    requires
        reply_missing(h, e),
        h.len() <= t.len(),
        t.take(h.len() as int) == h,
    ensures
        reply_missing(t, e),
{
    let k = choose|k: int| #[trigger] missing_at(h, k, e);
    assert(t.take(h.len() as int)[k] == t[k]);
    assert(missing_at(t, k, e));
}

/// From each snippet on, what is told is what was replied.
proof fn lemma_run_tells(run: RunView, i: nat, done: Seq<AttemptResultView>, h: Heard)
    requires
        i <= run.snippets.len(),
        done.len() == i,
        h.len() == 2 + 4 * i,
        run.line_text == line_or_empty(lines_of(run.content), run.line),
        run.total_lines == lines_of(run.content).len(),
        all_tried(h, run.path, run.content, run.line, run.target_col, run.snippets, done),
    ensures
        ends_well(attempts_from(run, i, done), hearing(), h, run_told(run)),
    decreases run.snippets.len() - i,
{
    let good = run_told(run);
    let step = hearing();
    if i < run.snippets.len() {
        let edit = run_edit(run, i);
        let c = check_of(run.path, run.line, edit, None);
        let q = RequestView::UpdateFile { path: run.path, change: edit.change };
        let k = attempt_edited(run, i, done);
        assert forall|r: ReplyView| ends_well(#[trigger] k(r), step, step(h, q, r), good) by {
            let h1 = h.push((q, r));
            assert(h1.take(h.len() as int) =~= h);
            if r is Done {
                let middle = check_told(c, h1);
                lemma_check_tells(c, h1);
                let f = attempt_checked(run, i, done);
                assert forall|t: Heard, o: Result<AttemptResultView, ErrorView>| #[trigger]
                    middle(t, o) implies ends_well(f(o), step, t, good) by {
                    assert(t.take(h.len() as int) =~= h1.take(h.len() as int)) by {
                        assert forall|j: int| 0 <= j < h.len() implies t[j] == h1[j] by {
                            assert(t.take(h1.len() as int)[j] == t[j]);
                        }
                    }
                    assert(t.take(h1.len() as int)[h.len() as int] == t[h.len() as int]);
                    match o {
                        Ok(a) => {
                            assert(!look_failed(t, h1.len() as int));
                            let restored = attempt_restored(run, i, done.push(a));
                            let q2 = RequestView::ReplaceContent {
                                path: run.path,
                                content: run.content,
                            };
                            assert forall|r2: ReplyView|
                                ends_well(#[trigger] restored(r2), step, step(t, q2, r2), good) by {
                                let t2 = t.push((q2, r2));
                                assert(t2.take(h.len() as int) =~= h);
                                if r2 is Done {
                                    lemma_still_tried(
                                        h,
                                        t2,
                                        run.path,
                                        run.content,
                                        run.line,
                                        run.target_col,
                                        run.snippets,
                                        done,
                                    );
                                    assert(tried_there(
                                        t2,
                                        (2 + 4 * i) as int,
                                        run.path,
                                        run.content,
                                        run.line,
                                        run.target_col,
                                        run.snippets[i as int],
                                        a,
                                    ));
                                    assert forall|j: int|
                                        0 <= j < done.push(a).len() implies tried_there(
                                        t2,
                                        2 + 4 * j,
                                        run.path,
                                        run.content,
                                        run.line,
                                        run.target_col,
                                        run.snippets[j],
                                        #[trigger] done.push(a)[j],
                                    ) by {
                                        if j < done.len() {
                                            assert(done.push(a)[j] == done[j]);
                                        }
                                    }
                                    lemma_run_tells(run, i + 1, done.push(a), t2);
                                } else {
                                    assert(t2[t.len() as int] == (q2, r2));
                                    let e = fault("update_file_content"@, r2);
                                    assert(missing_at(t2, t.len() as int, e));
                                    lemma_left_told(run, Err(e), t2);
                                }
                            }
                        },
                        Err(e) => {
                            assert(look_failed(t, h1.len() as int));
                            assert(t[t.len() - 1] == t.last());
                            assert(missing_at(t, t.len() - 1, e));
                            lemma_left_told(run, Err(e), t);
                        },
                    }
                }
                lemma_followed_ends_well(check_dialogue(c), f, step, h1, middle, good);
            } else {
                assert(h1[h.len() as int] == (q, r));
                let e = fault("update_file"@, r);
                assert(missing_at(h1, h.len() as int, e));
                lemma_left_told(run, Err(e), h1);
            }
        }
    } else {
        lemma_left_told(run, Ok(MultiAttemptResultView { items: done }), h);
    }
}

/// How trying snippets in the file itself is to end: with an attempt for each snippet,
/// which tells all goals and messages that were replied about it, in their order. It
/// fails where the place is not in the file, or where a reply is missing.
pub open spec fn sequence_told(
    path: Seq<char>,
    line: u32,
    snippets: Seq<Seq<char>>,
    column: Option<u32>,
) -> spec_fn(Heard, AttemptsSaid) -> bool {
    |h: Heard, o: AttemptsSaid|
        {
            &&& h.len() >= 1 && h[0].0 == (RequestView::OpenFile { path })
            &&& h[0].1 is Done ==> h.len() >= 2 && h[1].0 == (RequestView::FileContent { path })
            &&& h.len() >= 2 && h[0].1 is Done && h[1].1 is Text ==> {
                let content = h[1].1->Text_0;
                let lines = lines_of(content);
                if !(1 <= line <= lines.len()) {
                    o == Err::<MultiAttemptResultView, ErrorView>(
                        ErrorView::LineOutOfRange { line: line as nat, total: lines.len() },
                    ) && h.len() == 2
                } else {
                    match column_of(lines[line - 1], column) {
                        Ok(col) => match o {
                            Ok(m) => m.items.len() == snippets.len() && all_tried(
                                h,
                                path,
                                content,
                                line,
                                col as u32,
                                snippets,
                                m.items,
                            ),
                            Err(e) => reply_missing(h, e),
                        },
                        Err(e) => o == Err::<MultiAttemptResultView, ErrorView>(e) && h.len() == 2,
                    }
                }
            }
            &&& !(h[0].1 is Done) ==> o == Err::<MultiAttemptResultView, ErrorView>(
                fault("open_file"@, h[0].1),
            )
            &&& h[0].1 is Done && !(h[1].1 is Text) ==> o == Err::<
                MultiAttemptResultView,
                ErrorView,
            >(fault("get_file_content"@, h[1].1))
        }
}

/// Trying snippets in the file itself tells what was replied about each of them.
pub proof fn lemma_sequence_tells(
    path: Seq<char>,
    line: u32,
    snippets: Seq<Seq<char>>,
    column: Option<u32>,
)
    ensures
        ends_well(
            lsp_dialogue(path, line, snippets, column),
            hearing(),
            unheard(),
            sequence_told(path, line, snippets, column),
        ),
{
    let good = sequence_told(path, line, snippets, column);
    let step = hearing();
    let q1 = RequestView::OpenFile { path };
    let q2 = RequestView::FileContent { path };
    let opened = crate::tools::multi_attempt::lsp_opened(path, line, snippets, column);
    let read = lsp_read(path, line, snippets, column);
    assert forall|r: ReplyView|
        ends_well(#[trigger] opened(r), step, step(unheard(), q1, r), good) by {
        let h1 = unheard().push((q1, r));
        if r is Done {
            assert forall|r2: ReplyView|
                ends_well(#[trigger] read(r2), step, step(h1, q2, r2), good) by {
                let h2 = h1.push((q2, r2));
                if let ReplyView::Text(content) = r2 {
                    let lines = lines_of(content);
                    if 1 <= line <= lines.len() {
                        if let Ok(col) = column_of(lines[line - 1], column) {
                            let run = RunView {
                                path,
                                line,
                                content,
                                line_text: lines[line - 1],
                                total_lines: lines.len(),
                                target_col: col as u32,
                                snippets,
                            };
                            lemma_run_tells(run, 0, Seq::empty(), h2);
                            lemma_goes_on(attempts_from(run, 0, Seq::empty()), h2);
                            let told = run_told(run);
                            let on = goes_on::<AttemptsSaid>(h2);
                            assert forall|t: Heard, o: AttemptsSaid| #[trigger]
                                told(t, o) && on(t, o) implies good(t, o) by {
                                assert(t.take(2)[0] == h2[0]);
                                assert(t.take(2)[1] == h2[1]);
                            }
                            lemma_ends_both(
                                attempts_from(run, 0, Seq::empty()),
                                step,
                                h2,
                                told,
                                on,
                                good,
                            );
                        }
                    }
                }
            }
        }
    }
}

/// How trying one snippet in the file itself is to end: where all replies came, with
/// all goals and messages that were replied; else with a message and no goals. The file is
/// put back, whatever came.
pub open spec fn warm_told(
    path: Seq<char>,
    content: Seq<char>,
    line: u32,
    column: u32,
    snippet: Seq<char>,
    limit: Option<Seq<char>>,
) -> spec_fn(Heard, AttemptResultView) -> bool {
    |h: Heard, a: AttemptResultView|
        {
            let lines = lines_of(content);
            let e = edit_of(line_or_empty(lines, line), column, snippet, lines.len(), line);
            &&& h.len() >= 2
            &&& h[0].0 == (RequestView::UpdateFile { path, change: e.change })
            &&& a.snippet == trim_end_char_of(snippet, '\n')
            &&& if !(h[0].1 is Done) {
                &&& h[1].0 == (RequestView::ReplaceContent { path, content })
                &&& says_fault(h, a, a.snippet, limit, "update_file"@, h[0].1)
            } else if !(h[1].1 is Value) {
                &&& h.len() > 2 && h[2].0 == (RequestView::ReplaceContent { path, content })
                &&& says_fault(h, a, a.snippet, limit, "get_diagnostics"@, h[1].1)
            } else {
                &&& h.len() > 3 && h[3].0 == (RequestView::ReplaceContent { path, content })
                &&& if h[2].1 is Texts {
                    tells_replies(
                        h,
                        1,
                        edited_place(path, content, line, column, snippet, limit),
                        a,
                    )
                } else {
                    says_fault(h, a, a.snippet, limit, "get_goal"@, h[2].1)
                }
            }
        }
}

/// Trying one snippet in the file itself tells what was replied about it.
pub proof fn lemma_warm_tells(
    path: Seq<char>,
    content: Seq<char>,
    line: u32,
    column: u32,
    snippet: Seq<char>,
    limit: Option<Seq<char>>,
)
    ensures
        ends_well(
            warm_dialogue(path, content, line, column, snippet, limit),
            hearing(),
            unheard(),
            warm_told(path, content, line, column, snippet, limit),
        ),
{
    reveal_with_fuel(ends_well, 7);
    reveal_with_fuel(followed, 4);
}

/// Whether a file was closed and removed, from number `k` on.
pub open spec fn removed_from(h: Heard, k: int, path: Seq<char>) -> bool {
    &&& k + 1 < h.len()
    &&& h[k].0 == (RequestView::CloseFile { path })
    &&& h[k + 1].0 == (RequestView::RemoveFile { path })
}

/// Where a snippet is looked at in a file of its own: its lines and that of the
/// `sorry` behind it, which stand behind the code before it, and its end.
pub open spec fn isolated_place(
    path: Seq<char>,
    snippet: Seq<char>,
    base_code: Seq<char>,
    indent: Seq<char>,
    limit: Option<Seq<char>>,
) -> CheckView {
    let text = trim_end_char_of(snippet, '\n');
    let rows = lines_of(text);
    let first = if base_code.len() == 0 {
        0
    } else {
        split_of(base_code, '\n').len()
    };
    let height = if rows.len() == 0 {
        1
    } else {
        rows.len()
    };
    CheckView {
        path,
        snippet: text,
        first_line: first as u32,
        last_line: (first + height) as u32,
        goal_line: (first + height - 1) as u32,
        goal_column: (byte_len(indent) + if rows.len() == 0 {
            0
        } else {
            byte_len(rows.last())
        }) as u32,
        limit,
    }
}

/// How trying a snippet in a file of its own is to end: where all replies came, with
/// all goals and messages that were replied; else with a message and no goals. The file is
/// closed and removed, whatever came, once it was written.
pub open spec fn isolated_told(
    path: Seq<char>,
    snippet: Seq<char>,
    base_code: Seq<char>,
    indent: Seq<char>,
    limit: Option<Seq<char>>,
) -> spec_fn(Heard, AttemptResultView) -> bool {
    |h: Heard, a: AttemptResultView|
        {
            &&& h.len() >= 2
            &&& h[0].0 == (RequestView::MakeDirectory { path: ".lake/_mcp"@ })
            &&& h[1].0 == (RequestView::WriteFile {
                path,
                content: isolated_code(snippet, base_code, indent),
            })
            &&& h[1].1 is Done ==> h.len() >= 5 && h[2].0 == (RequestView::OpenFile { path })
            &&& a.snippet == trim_end_char_of(snippet, '\n')
            &&& if !(h[1].1 is Done) {
                !a.timed_out && only_says(
                    a,
                    a.snippet,
                    "error"@,
                    "Failed to write temp file: "@ + match h[1].1 {
                        ReplyView::Failed(words) => words,
                        _ => Seq::empty(),
                    },
                )
            } else if !(h[2].1 is Done) {
                removed_from(h, 3, path) && says_fault(
                    h,
                    a,
                    a.snippet,
                    limit,
                    "open_file"@,
                    h[2].1,
                )
            } else if !(h[3].1 is Value) {
                removed_from(h, 4, path) && says_fault(
                    h,
                    a,
                    a.snippet,
                    limit,
                    "get_diagnostics"@,
                    h[3].1,
                )
            } else if !(h[4].1 is Texts) {
                removed_from(h, 5, path) && says_fault(
                    h,
                    a,
                    a.snippet,
                    limit,
                    "get_goal"@,
                    h[4].1,
                )
            } else {
                removed_from(h, 5, path) && tells_replies(
                    h,
                    3,
                    isolated_place(path, snippet, base_code, indent, limit),
                    a,
                )
            }
        }
}

/// Trying a snippet in a file of its own tells what was replied about it.
pub proof fn lemma_isolated_tells(
    path: Seq<char>,
    snippet: Seq<char>,
    base_code: Seq<char>,
    indent: Seq<char>,
    limit: Option<Seq<char>>,
)
    ensures
        ends_well(
            isolated_dialogue(path, snippet, base_code, indent, limit),
            hearing(),
            unheard(),
            isolated_told(path, snippet, base_code, indent, limit),
        ),
{
    reveal_with_fuel(ends_well, 10);
    reveal_with_fuel(followed, 5);
    lemma_byte_len_chars(Seq::<char>::empty());
}

/// How planning snippets is to end that are tried at once: with the lines before the
/// place, the white space that its line begins with, and the snippets as they are.
pub open spec fn plan_told(path: Seq<char>, line: u32, snippets: Seq<Seq<char>>) -> spec_fn(
    Heard,
    PlanSaid,
) -> bool {
    |h: Heard, o: PlanSaid|
        if snippets.len() == 0 {
            h.len() == 0 && (o matches Ok(p) && p.snippets == snippets)
        } else {
            &&& h.len() >= 1 && h[0].0 == (RequestView::OpenFile { path })
            &&& h[0].1 is Done ==> h.len() == 2 && h[1].0 == (RequestView::FileContent { path })
            &&& if h[0].1 is Done && h[1].1 is Text {
                let lines = lines_of(h[1].1->Text_0);
                if 1 <= line <= lines.len() {
                    o matches Ok(p) && p.snippets == snippets && p.base_code == join_of(
                        lines.take(line - 1),
                        seq!['\n'],
                    ) && p.indent == if trim_start_of(lines[line - 1]).len() == 0 {
                        Seq::<char>::empty()
                    } else {
                        lines[line - 1].take(
                            lines[line - 1].len() - trim_start_of(lines[line - 1]).len(),
                        )
                    }
                } else {
                    o == Err::<crate::tools::multi_attempt::ParallelPlanView, ErrorView>(
                        ErrorView::LineOutOfRange { line: line as nat, total: lines.len() },
                    )
                }
            } else if h[0].1 is Done {
                o is Err && o->Err_0 == fault("get_file_content"@, h[1].1)
            } else {
                o is Err && o->Err_0 == fault("open_file"@, h[0].1)
            }
        }
}

/// Planning snippets that are tried at once tells what they are tried behind.
pub proof fn lemma_plan_tells(path: Seq<char>, line: u32, snippets: Seq<Seq<char>>)
    ensures
        ends_well(
            parallel_dialogue(path, line, snippets),
            hearing(),
            unheard(),
            plan_told(path, line, snippets),
        ),
{
    reveal_with_fuel(ends_well, 4);
    reveal_strlit("\n");
    assert("\n"@ =~= seq!['\n']);
}

/// How running snippets in the REPL is to end: behind the lines before the place, with
/// an attempt for each snippet that was run, which tells all goals and messages of its
/// run.
pub open spec fn repl_told(path: Seq<char>, line: u32, snippets: Seq<Seq<char>>) -> spec_fn(
    Heard,
    ReplSaid,
) -> bool {
    |h: Heard, o: ReplSaid|
        {
            &&& h.len() >= 1 && h[0].0 == (RequestView::FileContent { path })
            &&& if h[0].1 is Text {
                let lines = lines_of(h[0].1->Text_0);
                if 1 <= line <= lines.len() {
                    &&& h.len() == 2
                    &&& h[1].0 == (RequestView::RunSnippets {
                        base_code: join_of(lines.take(line - 1), seq!['\n']),
                        snippets,
                    })
                    &&& !(h[1].1 is Snippets) ==> (o matches Ok(Some(m)) && m.items.len() == 0)
                    &&& o matches Ok(Some(m)) && (h[1].1 matches ReplyView::Snippets(runs) ==> {
                        &&& m.items.len() <= snippets.len()
                        &&& runs.len() >= snippets.len() ==> m.items.len() == snippets.len()
                        &&& runs.len() < snippets.len() ==> m.items.len() == runs.len()
                        &&& forall|i: int|
                            0 <= i < m.items.len() ==> {
                                let a = #[trigger] m.items[i];
                                &&& a.snippet == trim_end_char_of(snippets[i], '\n')
                                &&& a.goals == runs[i].goals
                                &&& a.diagnostics.len() == runs[i].messages.len() + if runs[i].error
                                    is Some {
                                    1int
                                } else {
                                    0
                                }
                                &&& runs[i].error matches Some(e) ==> a.diagnostics.last()
                                    == (DiagnosticMessageView {
                                    severity: "error"@,
                                    message: e,
                                    line: 0,
                                    column: 0,
                                })
                                &&& forall|j: int|
                                    0 <= j < runs[i].messages.len() ==> repl_message_told(
                                        #[trigger] runs[i].messages[j],
                                        a.diagnostics[j],
                                    )
                                &&& !a.timed_out
                            }
                    })
                } else {
                    o == Err::<Option<MultiAttemptResultView>, ErrorView>(
                        ErrorView::LineOutOfRange { line: line as nat, total: lines.len() },
                    )
                }
            } else {
                o is Err && o->Err_0 == fault("get_file_content"@, h[0].1)
            }
        }
}

/// Whether a message says what the REPL said.
pub open spec fn repl_message_told(m: JsonView, d: DiagnosticMessageView) -> bool {
    &&& text_member(m, "severity"@) matches Some(s) ==> d.severity == s
    &&& text_member(m, "severity"@) is None ==> d.severity == "info"@
    &&& text_member(m, "data"@) matches Some(t) ==> d.message == t
    &&& text_member(m, "data"@) is None ==> d.message.len() == 0
    &&& d.line == int_at(m, "pos"@, "line"@, 0)
    &&& d.column == int_at(m, "pos"@, "column"@, 0)
}

/// Running snippets in the REPL tells what came of each run.
pub proof fn lemma_repl_tells(path: Seq<char>, line: u32, snippets: Seq<Seq<char>>)
    requires
        forall|i: int| 0 <= i < snippets.len() ==> !(#[trigger] snippets[i]).contains('\n'),
    ensures
        ends_well(
            repl_dialogue(true, path, line, snippets, None),
            hearing(),
            unheard(),
            repl_told(path, line, snippets),
        ),
{
    reveal_with_fuel(ends_well, 4);
    reveal_strlit("\n");
    assert("\n"@ =~= seq!['\n']);
}

/// An outcome of the sequential path as that of the tool.
pub open spec fn in_sequence(told: spec_fn(Heard, AttemptsSaid) -> bool) -> spec_fn(
    Heard,
    ToolSaid,
) -> bool {
    |h: Heard, o: ToolSaid|
        match o {
            Ok(AttemptsView::Done(m)) => told(h, Ok(m)),
            Ok(AttemptsView::Parallel(_)) => false,
            Err(e) => told(h, Err(e)),
        }
}

/// Unless the snippets are tried at once or the REPL can run them, they are tried in
/// the file itself, and all that was replied about each of them is told.
pub proof fn lemma_multi_attempt_tells(
    has_repl: bool,
    path: Seq<char>,
    line: u32,
    snippets: Seq<Seq<char>>,
    column: Option<u32>,
    parallel: Option<bool>,
)
    requires
        parallel != Some(true),
        has_repl && column is None ==> exists|i: int|
            0 <= i < snippets.len() && (#[trigger] snippets[i]).contains('\n'),
    ensures
        ends_well(
            multi_attempt_dialogue(has_repl, path, line, snippets, column, parallel),
            hearing(),
            unheard(),
            in_sequence(sequence_told(path, line, snippets, column)),
        ),
{
    let told = sequence_told(path, line, snippets, column);
    let good = in_sequence(told);
    let f = lsp_outcome();
    lemma_sequence_tells(path, line, snippets, column);
    assert forall|h: Heard, o: AttemptsSaid| #[trigger] told(h, o) implies ends_well(
        f(o),
        hearing(),
        h,
        good,
    ) by {}
    lemma_followed_ends_well(
        lsp_dialogue(path, line, snippets, column),
        f,
        hearing(),
        unheard(),
        told,
        good,
    );
    assert(repl_dialogue(has_repl, path, line, snippets, column) == Dialogue::<ReplSaid>::Finish(
        Ok(None),
    ));
}

/// An outcome of the REPL path as that of the tool.
pub open spec fn in_repl(told: spec_fn(Heard, ReplSaid) -> bool) -> spec_fn(
    Heard,
    ToolSaid,
) -> bool {
    |h: Heard, o: ToolSaid|
        match o {
            Ok(AttemptsView::Done(m)) => told(h, Ok(Some(m))),
            Ok(AttemptsView::Parallel(_)) => false,
            Err(e) => told(h, Err(e)),
        }
}

/// Where there is a REPL, no column is given and each snippet is one line, the snippets
/// are run in the REPL, and all that came of each run is told.
pub proof fn lemma_repl_first(
    path: Seq<char>,
    line: u32,
    snippets: Seq<Seq<char>>,
    parallel: Option<bool>,
)
    requires
        parallel != Some(true),
        forall|i: int| 0 <= i < snippets.len() ==> !(#[trigger] snippets[i]).contains('\n'),
    ensures
        ends_well(
            multi_attempt_dialogue(true, path, line, snippets, None, parallel),
            hearing(),
            unheard(),
            in_repl(repl_told(path, line, snippets)),
        ),
{
    let told = repl_told(path, line, snippets);
    let good = in_repl(told);
    let f = repl_outcome(path, line, snippets, None);
    lemma_repl_tells(path, line, snippets);
    assert forall|h: Heard, o: ReplSaid| #[trigger] told(h, o) implies ends_well(
        f(o),
        hearing(),
        h,
        good,
    ) by {}
    lemma_followed_ends_well(
        repl_dialogue(true, path, line, snippets, None),
        f,
        hearing(),
        unheard(),
        told,
        good,
    );
}

/// An outcome of the parallel path as that of the tool.
pub open spec fn in_parallel(told: spec_fn(Heard, PlanSaid) -> bool) -> spec_fn(
    Heard,
    ToolSaid,
) -> bool {
    |h: Heard, o: ToolSaid|
        match o {
            Ok(AttemptsView::Done(_)) => false,
            Ok(AttemptsView::Parallel(plan)) => told(h, Ok(plan)),
            Err(e) => told(h, Err(e)),
        }
}

/// Where the snippets are to be tried at once, each of them is planned, whether there is a
/// REPL or not.
pub proof fn lemma_parallel_first(
    has_repl: bool,
    path: Seq<char>,
    line: u32,
    snippets: Seq<Seq<char>>,
    column: Option<u32>,
)
    ensures
        ends_well(
            multi_attempt_dialogue(has_repl, path, line, snippets, column, Some(true)),
            hearing(),
            unheard(),
            in_parallel(plan_told(path, line, snippets)),
        ),
{
    let told = plan_told(path, line, snippets);
    let good = in_parallel(told);
    let f = plan_outcome();
    lemma_plan_tells(path, line, snippets);
    assert forall|h: Heard, o: PlanSaid| #[trigger] told(h, o) implies ends_well(
        f(o),
        hearing(),
        h,
        good,
    ) by {}
    lemma_followed_ends_well(
        parallel_dialogue(path, line, snippets),
        f,
        hearing(),
        unheard(),
        told,
        good,
    );
}

} // verus!
