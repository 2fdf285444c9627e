//! `lean_diagnostic_messages`: what the compiler says of a file.
use crate::error::{result_view, ErrorView, LeanToolError};
use crate::json::{
    int_at, int_member, items_member, text_member, text_or_empty, views, Json, JsonView,
};
use crate::lists::{lemma_filter_map_is, lemma_filter_map_next, lemma_take_all, lemma_views_push};
use crate::models::{
    all_views, opt_str, opt_text, opt_texts, DiagnosticMessage, DiagnosticMessageView,
    DiagnosticsResult, DiagnosticsResultView, InteractiveDiagnosticsResult,
    InteractiveDiagnosticsResultView,
};
use crate::order::{lemma_unique_sorted, sort_unique, text_before, unique_sorted};
use crate::patterns::{
    all_matches, first_groups_there, group, group_of, is_match_of, match_texts, regex_matches,
    BUILD_PATTERN,
};
use crate::position::{before_of, from_one, full_range, full_range_of, number_before, one_based};
use crate::protocol::{
    begins, followed, lemma_followed, lsp_error, lsp_failure, waiting_first, Call, Dialogue, Reply,
    ReplyView, Request, RequestView, Turn, Waiting, Waits,
};
use crate::text::{
    contains_of, copy_texts, glue3, same_text, signed_decimal, signed_decimal_of, str_contains,
    texts,
};
use crate::tools::symbol_resolve::{get_declaration_range, range_dialogue, DeclarationRange};
use vstd::prelude::*;
use vstd::string::*;

verus! {

// ---------------------------------------------------------------------------
// The output of a build
// ---------------------------------------------------------------------------

/// Whether a message is the output of a build.
pub open spec fn build_output(message: Seq<char>) -> bool {
    contains_of(message, "lake setup-file"@) || is_match_of(BUILD_PATTERN@, message)
}

/// The first groups of some matches.
pub open spec fn first_groups(ms: Seq<Seq<Option<Seq<char>>>>) -> Seq<Seq<char>> {
    ms.filter_map(|m: Seq<Option<Seq<char>>>| group_of(m, 1))
}

/// The files that a build's output speaks of, in order and each once.
pub open spec fn failed_paths(message: Seq<char>) -> Seq<Seq<char>> {
    unique_sorted(first_groups(regex_matches(BUILD_PATTERN@, message)))
}

/// Where the first group takes part in each match, there is a match if and only if
/// some file is found.
proof fn lemma_match_names_file(ms: Seq<Seq<Option<Seq<char>>>>)
    requires
        first_groups_there(ms),
    ensures
        ms.len() > 0 <==> unique_sorted(first_groups(ms)).len() > 0,
{
    let f = |m: Seq<Option<Seq<char>>>| group_of(m, 1);
    let found = first_groups(ms);
    lemma_unique_sorted(found);
    if ms.len() > 0 {
        lemma_filter_map_next(ms, f, ms.len() - 1);
        lemma_take_all(ms);
        assert(ms[ms.len() - 1][1] is Some);
        assert(found.len() > 0);
        assert(found.contains(found[0]));
        assert(unique_sorted(found).contains(found[0]));
    } else {
        assert(found.len() == 0);
        if unique_sorted(found).len() > 0 {
            assert(unique_sorted(found).contains(unique_sorted(found)[0]));
        }
    }
}

/// Whether a message is the output of a build: it names `lake setup-file`, or some
/// file that failed.
pub fn is_build_stderr(message: &str) -> (r: bool)
    ensures
        r == build_output(message@),
        r == (contains_of(message@, "lake setup-file"@) || failed_paths(message@).len() > 0),
{
    let ms = all_matches(BUILD_PATTERN, message);
    proof {
        assert(match_texts(ms@).len() == ms@.len());
        lemma_match_names_file(match_texts(ms@));
    }
    str_contains(message, "lake setup-file") || ms.len() > 0
}

/// The first groups of some matches, in order and each once.
pub fn paths_in_matches(ms: &[Vec<Option<String>>]) -> (r: Vec<String>)
    ensures
        texts(r@) == unique_sorted(first_groups(match_texts(ms@))),
{
    let ghost all = match_texts(ms@);
    let ghost f = |m: Seq<Option<Seq<char>>>| group_of(m, 1);
    let mut paths: Vec<String> = Vec::new();
    proof {
        assert(texts(paths@) =~= all.take(0).filter_map(f));
    }
    for i in 0..ms.len()
        invariant
            all == match_texts(ms@),
            f == (|m: Seq<Option<Seq<char>>>| group_of(m, 1)),
            texts(paths@) == all.take(i as int).filter_map(f),
    {
        proof {
            lemma_filter_map_next(all, f, i as int);
            assert(all[i as int] == ms@[i as int]@.map_values(|g: Option<String>| opt_text(g)));
        }
        if let Some(path) = group(&ms[i], 1) {
            let ghost before = paths@;
            paths.push(path);
            proof {
                assert(texts(paths@) =~= texts(before).push(path@));
            }
        }
    }
    proof {
        lemma_take_all(all);
    }
    sort_unique(&paths)
}

/// The files that a build's output speaks of, in order and each once.
pub fn extract_failed_dependency_paths(message: &str) -> (r: Vec<String>)
    ensures
        texts(r@) == failed_paths(message@),
{
    paths_in_matches(&all_matches(BUILD_PATTERN, message))
}

// ---------------------------------------------------------------------------
// Messages
// ---------------------------------------------------------------------------

/// The name of a severity, taken as a number of 32 bits.
pub open spec fn severity_of(severity: int) -> Seq<char> {
    let n = severity as i32;
    if n == 1 {
        "error"@
    } else if n == 2 {
        "warning"@
    } else if n == 3 {
        "info"@
    } else if n == 4 {
        "hint"@
    } else {
        "unknown("@ + signed_decimal_of(n as int) + ")"@
    }
}

/// The name of a severity, taken as a number of 32 bits.
pub fn severity_name(severity: i64) -> (r: String)
    ensures
        r@ == severity_of(severity as int),
{
    let n: i32 = severity as i32;
    match n {
        1 => "error".to_owned(),
        2 => "warning".to_owned(),
        3 => "info".to_owned(),
        4 => "hint".to_owned(),
        _ => glue3("unknown(", signed_decimal(n as i64).as_str(), ")"),
    }
}

/// The message that a diagnostic of the language server stands for; none where
/// it has no range.
pub open spec fn message_of(d: JsonView) -> Option<DiagnosticMessageView> {
    match full_range(d) {
        Some(r) => Some(
            DiagnosticMessageView {
                severity: severity_of(
                    match int_member(d, "severity"@) {
                        Some(n) => n,
                        None => 1,
                    },
                ),
                message: text_or_empty(text_member(d, "message"@)),
                line: one_based(int_at(r, "start"@, "line"@, 0)) as i64,
                column: one_based(int_at(r, "start"@, "character"@, 0)) as i64,
            },
        ),
        None => None,
    }
}

/// A diagnostic with a range is told, and no other: its message, the place (from 1) at
/// which its range starts, and the name of its severity, which is an error where it has
/// none.
pub proof fn lemma_message_told(d: JsonView)
    ensures
        message_of(d) is Some <==> d.member("fullRange"@) is Some || d.member("range"@) is Some,
        message_of(d) matches Some(m) ==> {
            let r = match d.member("fullRange"@) {
                Some(r) => r,
                None => d.member("range"@)->0,
            };
            let line = int_at(r, "start"@, "line"@, 0);
            let column = int_at(r, "start"@, "character"@, 0);
            &&& text_member(d, "message"@) matches Some(t) ==> m.message == t
            &&& text_member(d, "message"@) is None ==> m.message.len() == 0
            &&& line < i64::MAX ==> m.line == line + 1
            &&& column < i64::MAX ==> m.column == column + 1
            &&& int_member(d, "severity"@) is None ==> m.severity == "error"@
            &&& int_member(d, "severity"@) == Some(1int) ==> m.severity == "error"@
            &&& int_member(d, "severity"@) == Some(2int) ==> m.severity == "warning"@
            &&& int_member(d, "severity"@) == Some(3int) ==> m.severity == "info"@
            &&& int_member(d, "severity"@) == Some(4int) ==> m.severity == "hint"@
        },
{
}

/// The message that a diagnostic of the language server stands for.
pub fn read_message(diag: &Json) -> (r: Option<DiagnosticMessage>)
    ensures
        match r {
            Some(m) => message_of(diag@) == Some(m@),
            None => message_of(diag@) is None,
        },
{
    let range = match full_range_of(diag) {
        Some(r) => r,
        None => return None,
    };
    let severity: i64 = match diag.int_member("severity") {
        Some(n) => n,
        None => 1,
    };
    let message = match diag.text_member("message") {
        Some(s) => s.to_owned(),
        None => String::new(),
    };
    Some(
        DiagnosticMessage {
            severity: severity_name(severity),
            message,
            line: from_one(range.int_at("start", "line")),
            column: from_one(range.int_at("start", "character")),
        },
    )
}

/// The files that failed, where the diagnostic is the output of a build: that
/// stands at the very beginning of a file.
pub open spec fn failed_in(d: JsonView) -> Option<Seq<Seq<char>>> {
    match message_of(d) {
        Some(m) => if m.line == 1 && m.column == 1 && build_output(m.message) {
            Some(failed_paths(m.message))
        } else {
            None
        },
        None => None,
    }
}

/// The files that failed, where the diagnostic is the output of a build.
pub fn failed_files(diag: &Json) -> (r: Option<Vec<String>>)
    ensures
        opt_texts(r) == failed_in(diag@),
{
    match read_message(diag) {
        Some(m) => if m.line == 1 && m.column == 1 && is_build_stderr(m.message.as_str()) {
            Some(extract_failed_dependency_paths(m.message.as_str()))
        } else {
            None
        },
        None => None,
    }
}

/// How messages call the severity that a user asks for: what a user calls
/// information, they call info.
pub open spec fn shown_severity(severity: Seq<char>) -> Seq<char> {
    if severity == "information"@ {
        "info"@
    } else {
        severity
    }
}

/// How messages call the severity that a user asks for.
pub fn shown_name(severity: &str) -> (r: &str)
    ensures
        r@ == shown_severity(severity@),
{
    if same_text(severity, "information") {
        "info"
    } else {
        severity
    }
}

/// The four severities that a user can ask for are those that the language server
/// numbers from 1 to 4, in this order.
pub proof fn lemma_severities_asked_for(n: int)
    requires
        i32::MIN <= n <= i32::MAX,
    ensures
        severity_of(n) == shown_severity("error"@) <==> n == 1,
        severity_of(n) == shown_severity("warning"@) <==> n == 2,
        severity_of(n) == shown_severity("information"@) <==> n == 3,
        severity_of(n) == shown_severity("hint"@) <==> n == 4,
{
    reveal_strlit("error");
    reveal_strlit("warning");
    reveal_strlit("information");
    reveal_strlit("info");
    reveal_strlit("hint");
    reveal_strlit("unknown(");
    let s = severity_of(n);
    assert("error"@.len() == 5 && "warning"@.len() == 7 && "information"@.len() == 11);
    assert("info"@.len() == 4 && "info"@[0] == 'i' && "hint"@.len() == 4 && "hint"@[0] == 'h');
    assert("error"@[0] == 'e' && "warning"@[0] == 'w');
    if !(1 <= n <= 4) {
        assert(s == "unknown("@ + signed_decimal_of(n) + ")"@);
        assert(s.len() > 8 && s[0] == 'u');
    }
}

/// The message of a diagnostic that is told: it is not the output of a build,
/// and it is of the severity asked for, where one is.
pub open spec fn kept_message(
    d: JsonView,
    failed: Option<Seq<Seq<char>>>,
    severity: Option<Seq<char>>,
) -> Option<DiagnosticMessageView> {
    match message_of(d) {
        Some(m) => if failed is Some || (severity matches Some(s) && m.severity
            != shown_severity(s)) {
            None
        } else {
            Some(m)
        },
        None => None,
    }
}

/// The messages that are told, one diagnostic after the other.
pub open spec fn kept_messages(
    ds: Seq<JsonView>,
    failed: Seq<Option<Seq<Seq<char>>>>,
    severity: Option<Seq<char>>,
) -> Seq<DiagnosticMessageView>
    decreases ds.len(),
{
    if ds.len() == 0 {
        Seq::empty()
    } else {
        let before = kept_messages(ds.drop_last(), failed, severity);
        match kept_message(ds.last(), failed[ds.len() - 1], severity) {
            Some(m) => before.push(m),
            None => before,
        }
    }
}

/// Where a severity is asked for, the messages of that severity are told, all of
/// them and in their order, and no others.
pub proof fn lemma_only_severity(
    ds: Seq<JsonView>,
    failed: Seq<Option<Seq<Seq<char>>>>,
    severity: Seq<char>,
)
    ensures
        kept_messages(ds, failed, Some(severity)) == kept_messages(ds, failed, None).filter(
            |m: DiagnosticMessageView| m.severity == shown_severity(severity),
        ),
    decreases ds.len(),
{
    let wanted = |m: DiagnosticMessageView| m.severity == shown_severity(severity);
    reveal(Seq::filter);
    if ds.len() > 0 {
        let before = kept_messages(ds.drop_last(), failed, None);
        lemma_only_severity(ds.drop_last(), failed, severity);
        if let Some(m) = kept_message(ds.last(), failed[ds.len() - 1], None) {
            assert(before.push(m).drop_last() =~= before);
        }
    }
}

/// The messages that are told of some diagnostics: those of all that have a range, are
/// not the output of a build at the very beginning of the file, and are of the severity
/// asked for, where one is; in their order.
pub proof fn lemma_diagnostics_told(ds: Seq<JsonView>, severity: Option<Seq<char>>, n: int)
    requires
        0 <= n <= ds.len(),
    ensures
        kept_messages(ds.take(n), failed_all(ds), severity) == ds.take(n).filter(
            |d: JsonView|
                {
                    let m = message_of(d)->0;
                    &&& d.member("fullRange"@) is Some || d.member("range"@) is Some
                    &&& !(m.line == 1 && m.column == 1 && build_output(m.message))
                    &&& severity matches Some(s) ==> m.severity == shown_severity(s)
                },
        ).map_values(|d: JsonView| message_of(d)->0),
    decreases n,
{
    let keep = |d: JsonView|
        {
            let m = message_of(d)->0;
            &&& d.member("fullRange"@) is Some || d.member("range"@) is Some
            &&& !(m.line == 1 && m.column == 1 && build_output(m.message))
            &&& severity matches Some(s) ==> m.severity == shown_severity(s)
        };
    let image = |d: JsonView| message_of(d)->0;
    reveal(Seq::filter);
    if n > 0 {
        let d = ds[n - 1];
        lemma_diagnostics_told(ds, severity, n - 1);
        assert(ds.take(n).drop_last() =~= ds.take(n - 1));
        assert(ds.take(n).last() == d);
        assert(failed_all(ds)[n - 1] == failed_in(d));
        if keep(d) {
            assert(ds.take(n - 1).filter(keep).push(d).map_values(image) =~= ds.take(n - 1).filter(
                keep,
            ).map_values(image).push(image(d)));
        }
    } else {
        assert(ds.take(0).filter(keep).map_values(image) =~= Seq::empty());
    }
}

/// The last of the lists of failed files.
pub open spec fn last_failed(failed: Seq<Option<Seq<Seq<char>>>>) -> Seq<Seq<char>>
    decreases failed.len(),
{
    if failed.len() == 0 {
        Seq::empty()
    } else {
        match failed.last() {
            Some(paths) => paths,
            None => last_failed(failed.drop_last()),
        }
    }
}

/// The files that failed are those of the last diagnostic that is the output of a
/// build, and none where there is no such diagnostic.
pub proof fn lemma_last_failed(failed: Seq<Option<Seq<Seq<char>>>>)
    ensures
        forall|k: int|
            0 <= k < failed.len() && (#[trigger] failed[k]) is Some && (forall|j: int|
                k < j < failed.len() ==> (#[trigger] failed[j]) is None) ==> Some(
                last_failed(failed),
            ) == failed[k],
        (forall|j: int| 0 <= j < failed.len() ==> (#[trigger] failed[j]) is None) ==> last_failed(
            failed,
        ).len() == 0,
    decreases failed.len(),
{
    if failed.len() > 0 {
        let init = failed.drop_last();
        lemma_last_failed(init);
        if failed.last() is None {
            assert forall|k: int|
                0 <= k < failed.len() && (#[trigger] failed[k]) is Some && (forall|j: int|
                    k < j < failed.len() ==> (#[trigger] failed[j]) is None) implies Some(
                last_failed(failed),
            ) == failed[k] by {
                assert(init[k] == failed[k]);
                assert forall|j: int| k < j < init.len() implies (#[trigger] init[j]) is None by {
                    assert(failed[j] is None);
                }
            }
            if forall|j: int| 0 <= j < failed.len() ==> (#[trigger] failed[j]) is None {
                assert forall|j: int| 0 <= j < init.len() implies (#[trigger] init[j]) is None by {
                    assert(failed[j] is None);
                }
            }
        } else {
            assert(failed[failed.len() - 1] is Some);
        }
    }
}

/// The result for some diagnostics, where `failed` tells of each whether it is
/// the output of a build and which files failed.
pub open spec fn result_of(
    ds: Seq<JsonView>,
    failed: Seq<Option<Seq<Seq<char>>>>,
    success: bool,
    severity: Option<Seq<char>>,
) -> DiagnosticsResultView {
    DiagnosticsResultView {
        success,
        items: kept_messages(ds, failed, severity),
        failed_dependencies: last_failed(failed),
    }
}

/// Of each diagnostic, the files that failed where it is the output of a build.
pub open spec fn failed_all(ds: Seq<JsonView>) -> Seq<Option<Seq<Seq<char>>>> {
    ds.map_values(|d: JsonView| failed_in(d))
}

/// The texts of some lists of files.
pub open spec fn lists_of(v: Seq<Option<Vec<String>>>) -> Seq<Option<Seq<Seq<char>>>> {
    v.map_values(|o: Option<Vec<String>>| opt_texts(o))
}

/// The result for some diagnostics, where `failed` tells of each whether it is
/// the output of a build and which files failed.
pub fn assemble(
    diagnostics: &[Json],
    failed: &[Option<Vec<String>>],
    build_success: bool,
    severity_filter: Option<&str>,
) -> (r: DiagnosticsResult)
    requires
        failed@.len() == diagnostics@.len(),
    ensures
        r@ == result_of(
            views(diagnostics@),
            lists_of(failed@),
            build_success,
            opt_str(severity_filter),
        ),
{
    let ghost ds = views(diagnostics@);
    let ghost fs = lists_of(failed@);
    let ghost severity = opt_str(severity_filter);
    let mut items: Vec<DiagnosticMessage> = Vec::new();
    let mut failed_dependencies: Vec<String> = Vec::new();
    proof {
        assert(all_views(items@) =~= Seq::empty());
        assert(texts(failed_dependencies@) =~= Seq::empty());
    }
    for i in 0..diagnostics.len()
        invariant
            ds == views(diagnostics@),
            fs == lists_of(failed@),
            severity == opt_str(severity_filter),
            failed@.len() == diagnostics@.len(),
            all_views(items@) == kept_messages(ds.take(i as int), fs, severity),
            texts(failed_dependencies@) == last_failed(fs.take(i as int)),
    {
        proof {
            assert(ds.take(i + 1).drop_last() =~= ds.take(i as int));
            assert(ds.take(i + 1).last() == diagnostics@[i as int]@);
            assert(fs.take(i + 1).drop_last() =~= fs.take(i as int));
            assert(fs.take(i + 1).last() == opt_texts(failed@[i as int]));
            assert(fs[i as int] == opt_texts(failed@[i as int]));
        }
        if let Some(paths) = &failed[i] {
            failed_dependencies = copy_texts(paths);
        } else if let Some(m) = read_message(&diagnostics[i]) {
            let wanted = match severity_filter {
                Some(s) => same_text(m.severity.as_str(), shown_name(s)),
                None => true,
            };
            if wanted {
                let ghost before = items@;
                items.push(m);
                proof {
                    lemma_views_push(before, m);
                }
            }
        }
    }
    proof {
        lemma_take_all(ds);
        lemma_take_all(fs);
    }
    DiagnosticsResult { success: build_success, items, failed_dependencies }
}

/// The result for some diagnostics.
pub fn process_diagnostics(
    diagnostics: &[Json],
    build_success: bool,
    severity_filter: Option<&str>,
) -> (r: DiagnosticsResult)
    ensures
        r@ == result_of(
            views(diagnostics@),
            failed_all(views(diagnostics@)),
            build_success,
            opt_str(severity_filter),
        ),
{
    let ghost all = failed_all(views(diagnostics@));
    let mut failed: Vec<Option<Vec<String>>> = Vec::new();
    for i in 0..diagnostics.len()
        invariant
            all == failed_all(views(diagnostics@)),
            lists_of(failed@) == all.take(i as int),
    {
        let ghost before = failed@;
        failed.push(failed_files(&diagnostics[i]));
        proof {
            assert(lists_of(failed@) =~= lists_of(before).push(all[i as int]));
            assert(all.take(i + 1) =~= all.take(i as int).push(all[i as int]));
        }
    }
    proof {
        lemma_take_all(all);
        assert(lists_of(failed@).len() == failed@.len());
    }
    assemble(diagnostics, &failed, build_success, severity_filter)
}

// ---------------------------------------------------------------------------
// The tool
// ---------------------------------------------------------------------------

/// What the tool tells.
#[derive(Debug, PartialEq, Eq)]
pub enum Diagnostics {
    Standard(DiagnosticsResult),
    Interactive(InteractiveDiagnosticsResult),
}

/// What [`Diagnostics`] say.
pub enum DiagnosticsView {
    Standard(DiagnosticsResultView),
    Interactive(InteractiveDiagnosticsResultView),
}

impl View for Diagnostics {
    type V = DiagnosticsView;

    open spec fn view(&self) -> DiagnosticsView {
        match *self {
            Diagnostics::Standard(d) => DiagnosticsView::Standard(d@),
            Diagnostics::Interactive(d) => DiagnosticsView::Interactive(d@),
        }
    }
}

/// What `lean_diagnostic_messages` comes to.
pub type DiagnosticsSaid = Result<DiagnosticsView, ErrorView>;

/// The result for a reply of the language server.
pub open spec fn result_for(raw: JsonView, severity: Option<Seq<char>>) -> DiagnosticsResultView {
    let ds = match items_member(raw, "diagnostics"@) {
        Some(ds) => ds,
        None => Seq::empty(),
    };
    let success = match raw.member("success"@) {
        Some(v) => match v.boolean() {
            Some(b) => b,
            None => true,
        },
        None => true,
    };
    result_of(ds, failed_all(ds), success, severity)
}

/// The result for a reply of the language server.
pub fn read_result(raw: &Json, severity: Option<&str>) -> (r: DiagnosticsResult)
    ensures
        r@ == result_for(raw@, opt_str(severity)),
{
    let none: Vec<Json> = Vec::new();
    proof {
        assert(views(none@) =~= Seq::empty());
    }
    let ds = match raw.items_member("diagnostics") {
        Some(ds) => ds,
        None => &none,
    };
    let success = match raw.get("success") {
        Some(v) => match v.as_bool() {
            Some(b) => b,
            None => true,
        },
        None => true,
    };
    process_diagnostics(ds, success, severity)
}

/// After the diagnostics came.
pub open spec fn standard_told(severity: Option<Seq<char>>) -> Waiting<DiagnosticsSaid> {
    |r: ReplyView|
        Dialogue::Finish(
            match r {
                ReplyView::Value(raw) => Ok(DiagnosticsView::Standard(result_for(raw, severity))),
                _ => Err(lsp_failure("get_diagnostics"@, r.trouble())),
            },
        )
}

/// After the interactive diagnostics came.
pub open spec fn interactive_told() -> Waiting<DiagnosticsSaid> {
    |r: ReplyView|
        Dialogue::Finish(
            match r {
                ReplyView::Values(diagnostics) => Ok(
                    DiagnosticsView::Interactive(
                        InteractiveDiagnosticsResultView { diagnostics },
                    ),
                ),
                _ => Err(lsp_failure("get_interactive_diagnostics"@, r.trouble())),
            },
        )
}

/// A line counted from 0, for one counted from 1, where one is given.
pub open spec fn from_zero(line: Option<u32>) -> Option<u32> {
    match line {
        Some(n) => Some(before_of(n)),
        None => None,
    }
}

/// A line counted from 0, for one counted from 1, where one is given.
fn line_from_zero(line: Option<u32>) -> (r: Option<u32>)
    ensures
        r == from_zero(line),
{
    match line {
        Some(n) => Some(number_before(n)),
        None => None,
    }
}

/// Asks for the diagnostics of some lines (from 1) of an open file.
pub open spec fn ask_diagnostics(
    path: Seq<char>,
    start: Option<u32>,
    end: Option<u32>,
    interactive: bool,
    severity: Option<Seq<char>>,
) -> Dialogue<DiagnosticsSaid> {
    if interactive {
        Dialogue::Ask(
            RequestView::InteractiveDiagnostics {
                path,
                start_line: from_zero(start),
                end_line: from_zero(end),
            },
            interactive_told(),
        )
    } else {
        Dialogue::Ask(
            RequestView::Diagnostics {
                path,
                start_line: from_zero(start),
                end_line: from_zero(end),
                bounded: true,
            },
            standard_told(severity),
        )
    }
}

/// After the lines of the declaration were looked for.
pub open spec fn lines_found(
    path: Seq<char>,
    name: Seq<char>,
    interactive: bool,
    severity: Option<Seq<char>>,
) -> spec_fn(Result<Option<(u32, u32)>, ErrorView>) -> Dialogue<DiagnosticsSaid> {
    |res: Result<Option<(u32, u32)>, ErrorView>|
        match res {
            Ok(Some(lines)) => ask_diagnostics(
                path,
                Some(lines.0),
                Some(lines.1),
                interactive,
                severity,
            ),
            Ok(None) => Dialogue::Finish(Err(ErrorView::DeclarationNotFound(name))),
            Err(e) => Dialogue::Finish(Err(e)),
        }
}

/// What is asked for.
pub struct DiagnosticsQueryView {
    pub path: Seq<char>,
    pub start_line: Option<u32>,
    pub end_line: Option<u32>,
    pub declaration: Option<Seq<char>>,
    pub interactive: bool,
    pub severity: Option<Seq<char>>,
}

/// After the file was opened.
pub open spec fn diagnostics_opened(q: DiagnosticsQueryView) -> Waiting<DiagnosticsSaid> {
    |r: ReplyView|
        if r is Done {
            match q.declaration {
                Some(name) => followed(
                    range_dialogue(q.path, name),
                    lines_found(q.path, name, q.interactive, q.severity),
                ),
                None => ask_diagnostics(
                    q.path,
                    q.start_line,
                    q.end_line,
                    q.interactive,
                    q.severity,
                ),
            }
        } else {
            Dialogue::Finish(Err(lsp_failure("open_file"@, r.trouble())))
        }
}

/// The whole of `lean_diagnostic_messages`.
pub open spec fn diagnostics_dialogue(q: DiagnosticsQueryView) -> Dialogue<DiagnosticsSaid> {
    Dialogue::Ask(RequestView::OpenFile { path: q.path }, diagnostics_opened(q))
}

/// What is asked for.
pub struct DiagnosticsQuery {
    pub path: String,
    pub start_line: Option<u32>,
    pub end_line: Option<u32>,
    pub declaration: Option<String>,
    pub interactive: bool,
    pub severity: Option<String>,
}

impl View for DiagnosticsQuery {
    type V = DiagnosticsQueryView;

    open spec fn view(&self) -> DiagnosticsQueryView {
        DiagnosticsQueryView {
            path: self.path@,
            start_line: self.start_line,
            end_line: self.end_line,
            declaration: opt_text(self.declaration),
            interactive: self.interactive,
            severity: opt_text(self.severity),
        }
    }
}

/// `lean_diagnostic_messages` at work.
pub enum DiagnosticsCall {
    /// Waits until the file is open.
    Opening { query: DiagnosticsQuery },
    /// Waits for the lines of the declaration.
    Finding {
        call: DeclarationRange,
        path: String,
        name: String,
        interactive: bool,
        severity: Option<String>,
    },
    /// Waits for the diagnostics.
    Asking { severity: Option<String> },
    /// Waits for the interactive diagnostics.
    AskingInteractive,
}

impl Waits for DiagnosticsCall {
    type Out = Result<Diagnostics, LeanToolError>;

    type Said = DiagnosticsSaid;

    open spec fn said(o: Self::Out) -> DiagnosticsSaid {
        result_view(o)
    }

    open spec fn valid(self) -> bool {
        true
    }

    open spec fn waiting(self) -> Waiting<DiagnosticsSaid> {
        match self {
            DiagnosticsCall::Opening { query } => diagnostics_opened(query@),
            DiagnosticsCall::Finding { call, path, name, interactive, severity } => waiting_first(
                call.waiting(),
                lines_found(path@, name@, interactive, opt_text(severity)),
            ),
            DiagnosticsCall::Asking { severity } => standard_told(opt_text(severity)),
            DiagnosticsCall::AskingInteractive => interactive_told(),
        }
    }

    open spec fn admits(self, r: ReplyView) -> bool {
        true
    }
}

impl DiagnosticsCall {
    /// Asks for the diagnostics of some lines (from 1).
    fn ask(
        path: String,
        start: Option<u32>,
        end: Option<u32>,
        interactive: bool,
        severity: Option<String>,
    ) -> (t: Turn<DiagnosticsCall, Result<Diagnostics, LeanToolError>>)
        ensures
            begins(t, ask_diagnostics(path@, start, end, interactive, opt_text(severity))),
    {
        let start_line = line_from_zero(start);
        let end_line = line_from_zero(end);
        if interactive {
            Turn::Ask(
                Request::InteractiveDiagnostics { path, start_line, end_line },
                DiagnosticsCall::AskingInteractive,
            )
        } else {
            Turn::Ask(
                Request::Diagnostics { path, start_line, end_line, bounded: true },
                DiagnosticsCall::Asking { severity },
            )
        }
    }

    /// Goes on with the search for the declaration.
    fn found(
        t: Turn<DeclarationRange, Result<Option<(u32, u32)>, LeanToolError>>,
        path: String,
        name: String,
        interactive: bool,
        severity: Option<String>,
    ) -> (r: Turn<DiagnosticsCall, Result<Diagnostics, LeanToolError>>)
        ensures
            forall|d: Dialogue<Result<Option<(u32, u32)>, ErrorView>>| #[trigger]
                begins(t, d) ==> begins(
                    r,
                    followed(d, lines_found(path@, name@, interactive, opt_text(severity))),
                ),
    {
        match t {
            Turn::Ask(q, call) => {
                proof {
                    lemma_followed(
                        q@,
                        call.waiting(),
                        lines_found(path@, name@, interactive, opt_text(severity)),
                    );
                }
                Turn::Ask(
                    q,
                    DiagnosticsCall::Finding { call, path, name, interactive, severity },
                )
            },
            Turn::Done(Ok(Some(lines))) => DiagnosticsCall::ask(
                path,
                Some(lines.0),
                Some(lines.1),
                interactive,
                severity,
            ),
            Turn::Done(Ok(None)) => Turn::Done(Err(LeanToolError::DeclarationNotFound(name))),
            Turn::Done(Err(e)) => Turn::Done(Err(e)),
        }
    }
}

impl Call for DiagnosticsCall {
    fn accepts(&self, reply: &Reply) -> (r: bool) {
        true
    }

    fn resume(self, reply: Reply) -> (t: Turn<Self, Self::Out>) {
        match self {
            DiagnosticsCall::Opening { query } => match reply.done() {
                Ok(_) => match query.declaration {
                    Some(name) => DiagnosticsCall::found(
                        get_declaration_range(query.path.as_str(), name.as_str()),
                        query.path,
                        name,
                        query.interactive,
                        query.severity,
                    ),
                    None => DiagnosticsCall::ask(
                        query.path,
                        query.start_line,
                        query.end_line,
                        query.interactive,
                        query.severity,
                    ),
                },
                Err(m) => Turn::Done(Err(lsp_error("open_file", m))),
            },
            DiagnosticsCall::Finding { call, path, name, interactive, severity } =>
                DiagnosticsCall::found(call.resume(reply), path, name, interactive, severity),
            DiagnosticsCall::Asking { severity } => match reply.value() {
                Ok(raw) => {
                    let filter = match &severity {
                        Some(s) => Some(s.as_str()),
                        None => None,
                    };
                    Turn::Done(Ok(Diagnostics::Standard(read_result(&raw, filter))))
                },
                Err(m) => Turn::Done(Err(lsp_error("get_diagnostics", m))),
            },
            DiagnosticsCall::AskingInteractive => match reply.values() {
                Ok(diagnostics) => Turn::Done(
                    Ok(Diagnostics::Interactive(InteractiveDiagnosticsResult { diagnostics })),
                ),
                Err(m) => Turn::Done(Err(lsp_error("get_interactive_diagnostics", m))),
            },
        }
    }
}

/// What the compiler says of a file: of some of its lines (from 1), or of one
/// declaration; of one severity, where it is given; and with embedded widgets,
/// where they are wanted.
pub fn handle_diagnostics(
    file_path: &str,
    start_line: Option<u32>,
    end_line: Option<u32>,
    declaration_name: Option<String>,
    interactive: bool,
    severity_filter: Option<String>,
) -> (t: Turn<DiagnosticsCall, Result<Diagnostics, LeanToolError>>)
    ensures
        begins(
            t,
            diagnostics_dialogue(
                (DiagnosticsQueryView {
                    path: file_path@,
                    start_line,
                    end_line,
                    declaration: opt_text(declaration_name),
                    interactive,
                    severity: opt_text(severity_filter),
                }),
            ),
        ),
{
    let query = DiagnosticsQuery {
        path: file_path.to_owned(),
        start_line,
        end_line,
        declaration: declaration_name,
        interactive,
        severity: severity_filter,
    };
    Turn::Ask(
        Request::OpenFile { path: file_path.to_owned() },
        DiagnosticsCall::Opening { query },
    )
}

/// A diagnostic is the output of a build where it stands at the very beginning of the file
/// and speaks of the build. The files that it tells are all that it says have failed, each
/// once and sorted.
pub proof fn lemma_failed_told(d: JsonView)
    ensures
        failed_in(d) is Some <==> (message_of(d) matches Some(m) && m.line == 1 && m.column
            == 1 && (
        contains_of(m.message, "lake setup-file"@) || regex_matches(
            BUILD_PATTERN@,
            m.message,
        ).len() > 0)),
        failed_in(d) matches Some(paths) ==> {
            let ms = regex_matches(BUILD_PATTERN@, (message_of(d)->0).message);
            &&& forall|i: int, j: int|
                0 <= i < j < paths.len() ==> text_before(#[trigger] paths[i], #[trigger] paths[j])
            &&& forall|x: Seq<char>| #[trigger]
                paths.contains(x) <==> exists|k: int|
                    0 <= k < ms.len() && (#[trigger] ms[k]).len() > 1 && ms[k][1] == Some(x)
        },
{
    if let Some(paths) = failed_in(d) {
        let ms = regex_matches(BUILD_PATTERN@, (message_of(d)->0).message);
        let keep = |m: Seq<Option<Seq<char>>>| m.len() > 1 && m[1] is Some;
        let image = |m: Seq<Option<Seq<char>>>| m[1]->0;
        let f = |m: Seq<Option<Seq<char>>>| group_of(m, 1);
        lemma_filter_map_is(ms, f, keep, image);
        let found = first_groups(ms);
        lemma_unique_sorted(found);
        assert forall|x: Seq<char>| #[trigger] paths.contains(x) <==> exists|k: int|
            0 <= k < ms.len() && (#[trigger] ms[k]).len() > 1 && ms[k][1] == Some(x) by {
            let kept = ms.filter(keep);
            if found.contains(x) {
                let i = choose|i: int| 0 <= i < found.len() && found[i] == x;
                assert(kept.contains(kept[i]));
                lemma_passed_there(ms, keep, kept[i]);
                let k = choose|k: int| 0 <= k < ms.len() && ms[k] == kept[i];
                assert(ms[k].len() > 1 && ms[k][1] == Some(x));
            }
            if exists|k: int|
                0 <= k < ms.len() && (#[trigger] ms[k]).len() > 1 && ms[k][1] == Some(x) {
                let k = choose|k: int|
                    0 <= k < ms.len() && (#[trigger] ms[k]).len() > 1 && ms[k][1] == Some(x);
                assert(keep(ms[k]));
                lemma_passed_there(ms, keep, ms[k]);
                let i = choose|i: int| 0 <= i < kept.len() && kept[i] == ms[k];
                assert(found[i] == x);
            }
        }
    }
}

/// What passes a filter is what stands in the list and is let through.
proof fn lemma_passed_there<A>(s: Seq<A>, keep: spec_fn(A) -> bool, x: A)
    ensures
        s.filter(keep).contains(x) <==> s.contains(x) && keep(x),
    decreases s.len(),
{
    reveal(Seq::filter);
    if s.len() > 0 {
        let init = s.drop_last();
        lemma_passed_there(init, keep, x);
        let kept = s.filter(keep);
        if init.filter(keep).contains(x) {
            let i = choose|i: int| 0 <= i < init.filter(keep).len() && init.filter(keep)[i] == x;
            assert(kept[i] == x);
        }
        if init.contains(x) {
            let i = choose|i: int| 0 <= i < init.len() && init[i] == x;
            assert(s[i] == x);
        }
        if s.contains(x) && !init.contains(x) {
            let i = choose|i: int| 0 <= i < s.len() && s[i] == x;
            assert(i == s.len() - 1) by {
                if i < s.len() - 1 {
                    assert(init[i] == x);
                }
            }
            if keep(x) {
                assert(kept[kept.len() - 1] == x);
            }
        }
        if kept.contains(x) && !init.filter(keep).contains(x) {
            let i = choose|i: int| 0 <= i < kept.len() && kept[i] == x;
            assert(i == kept.len() - 1) by {
                if i < init.filter(keep).len() {
                    assert(init.filter(keep)[i] == x);
                }
            }
            assert(s[s.len() - 1] == x);
        }
    }
}

/// A severity without a name is told by its number.
pub proof fn lemma_severity_numbered(n: int)
    requires
        i32::MIN <= n <= i32::MAX,
        n < 1 || n > 4,
    ensures
        severity_of(n) == "unknown("@ + signed_decimal_of(n) + ")"@,
{
}

} // verus!
