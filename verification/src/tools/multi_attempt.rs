//! `lean_multi_attempt`: tries several tactics at one place of a file, without
//! changing the file for good.
use crate::error::{result_view, ErrorView, LeanToolError};
use crate::ids::{fresh_id, is_uuid};
use crate::json::{
    int_at, int_member, items_member, pair, pair_of, text_member, text_or_empty, uint_at, views,
    Json, JsonView,
};
use crate::lists::{
    lemma_filter_map_is, lemma_filter_map_next, lemma_filter_next, lemma_map_next, lemma_take_all,
    lemma_views_push,
};
use crate::models::{
    all_views, opt_of, opt_text, AttemptResult, AttemptResultView, DiagnosticMessage,
    DiagnosticMessageView, MultiAttemptResult, MultiAttemptResultView, SnippetRun, SnippetRunView,
};
use crate::position::{from_one, full_range, full_range_of, one_based, plain_range, plain_range_of};
use crate::protocol::{
    begins, followed, lemma_followed, lsp_error, lsp_failure, waiting_first, Call, Dialogue, Reply,
    ReplyView, Request, RequestView, Turn, Waiting, Waits,
};
use crate::text::{
    at_boundary, byte_len, byte_take, char_in, chars_of, copy_texts, ends_with_of, first_non_space,
    glue, glue3, indent_bytes, indent_of, is_boundary, join, join_of, leading_space,
    lemma_byte_len_chars, lemma_lines_unbroken, lemma_split_behind, lemma_split_join,
    lemma_split_whole, lines, lines_of, split, split_of, starts_with_of, str_bytes, str_prefix,
    text_of, texts, trim_end_char, trim_end_char_of,
};
use vstd::prelude::*;
use vstd::slice::slice_subrange;
use vstd::string::*;

verus! {

// ---------------------------------------------------------------------------
// Diagnostics
// ---------------------------------------------------------------------------

/// The name of a severity.
pub open spec fn severity_text(severity: i32) -> Seq<char> {
    if severity == 1 {
        "error"@
    } else if severity == 2 {
        "warning"@
    } else if severity == 3 {
        "info"@
    } else if severity == 4 {
        "hint"@
    } else {
        "unknown"@
    }
}

/// The name of a severity.
pub fn severity_name(severity: i32) -> (r: &'static str)
    ensures
        r@ == severity_text(severity),
{
    match severity {
        1 => "error",
        2 => "warning",
        3 => "info",
        4 => "hint",
        _ => "unknown",
    }
}

/// The message that a diagnostic of the language server stands for; none where
/// the diagnostic has no range.
pub open spec fn message_of(d: JsonView) -> Option<DiagnosticMessageView> {
    match full_range(d) {
        Some(r) => Some(
            DiagnosticMessageView {
                severity: severity_text(
                    match int_member(d, "severity"@) {
                        Some(n) => n as i32,
                        None => 1,
                    },
                ),
                message: text_or_empty(text_member(d, "message"@)),
                line: one_based(int_at(r, "start"@, "line"@, 0)) as i64,
                column: one_based(int_at(r, "start"@, "character"@, 0)) as i64,
            },
        ),
        None => None,
    }
}

/// The messages that some diagnostics of the language server stand for.
pub open spec fn messages_of(ds: Seq<JsonView>) -> Seq<DiagnosticMessageView> {
    ds.filter_map(|d: JsonView| message_of(d))
}

/// A diagnostic with a range is told, and no other: its message, the place (from 1) at
/// which its range starts, and the name of its severity, which is an error where it has
/// none.
pub proof fn lemma_message_told(d: JsonView)
    ensures
        message_of(d) is Some <==> d.member("fullRange"@) is Some || d.member("range"@) is Some,
        message_of(d) matches Some(m) ==> {
            let r = match d.member("fullRange"@) {
                Some(r) => r,
                None => d.member("range"@)->0,
            };
            let line = int_at(r, "start"@, "line"@, 0);
            let column = int_at(r, "start"@, "character"@, 0);
            &&& text_member(d, "message"@) matches Some(t) ==> m.message == t
            &&& text_member(d, "message"@) is None ==> m.message.len() == 0
            &&& line < i64::MAX ==> m.line == line + 1
            &&& column < i64::MAX ==> m.column == column + 1
            &&& int_member(d, "severity"@) is None ==> m.severity == "error"@
            &&& int_member(d, "severity"@) == Some(1int) ==> m.severity == "error"@
            &&& int_member(d, "severity"@) == Some(2int) ==> m.severity == "warning"@
            &&& int_member(d, "severity"@) == Some(3int) ==> m.severity == "info"@
            &&& int_member(d, "severity"@) == Some(4int) ==> m.severity == "hint"@
        },
{
}

/// All diagnostics that have a range are told, in their order.
pub proof fn lemma_messages_told(ds: Seq<JsonView>)
    ensures
        messages_of(ds) == ds.filter(
            |d: JsonView| d.member("fullRange"@) is Some || d.member("range"@) is Some,
        ).map_values(|d: JsonView| message_of(d)->0),
{
    lemma_filter_map_is(
        ds,
        |d: JsonView| message_of(d),
        |d: JsonView| d.member("fullRange"@) is Some || d.member("range"@) is Some,
        |d: JsonView| message_of(d)->0,
    );
}

/// The messages that some diagnostics of the language server stand for.
pub fn to_diagnostic_messages(diagnostics: &[Json]) -> (items: Vec<DiagnosticMessage>)
    ensures
        all_views(items@) == messages_of(views(diagnostics@)),
{
    let mut items: Vec<DiagnosticMessage> = Vec::new();
    let ghost ds = views(diagnostics@);
    for i in 0..diagnostics.len()
        invariant
            ds == views(diagnostics@),
            all_views(items@) == messages_of(ds.take(i as int)),
    {
        let diag = &diagnostics[i];
        proof {
            lemma_filter_map_next(ds, |d: JsonView| message_of(d), i as int);
            assert(ds[i as int] == diag@);
        }
        if let Some(r) = full_range_of(diag) {
            let severity: i32 = match diag.int_member("severity") {
                Some(n) => n as i32,
                None => 1,
            };
            let message = match diag.text_member("message") {
                Some(s) => s.to_owned(),
                None => String::new(),
            };
            let ghost before = items@;
            items.push(
                DiagnosticMessage {
                    severity: severity_name(severity).to_owned(),
                    message,
                    line: from_one(r.int_at("start", "line")),
                    column: from_one(r.int_at("start", "character")),
                },
            );
            proof {
                lemma_views_push(before, items@.last());
            }
        }
    }
    proof {
        lemma_take_all(ds);
    }
    items
}

/// Whether the lines of a diagnostic (from 0, as 32-bit numbers) meet those
/// from `start_line` to `end_line`.
pub open spec fn meets_lines(d: JsonView, start_line: u32, end_line: u32) -> bool {
    match plain_range(d) {
        Some(r) => match (uint_at(r, "start"@, "line"@), uint_at(r, "end"@, "line"@)) {
            (Some(ds), Some(de)) => !((de as u32) < start_line || (ds as u32) > end_line),
            _ => false,
        },
        None => false,
    }
}

/// A diagnostic meets some lines if and only if one of its lines, from the first to the
/// last, is one of them.
pub proof fn lemma_meets_lines(d: JsonView, r: JsonView, from: u32, to: u32, first: u32, last: u32)
    requires
        d.member("range"@) == Some(r) || (d.member("range"@) is None && d.member("fullRange"@)
            == Some(r)),
        uint_at(r, "start"@, "line"@) == Some(from as nat),
        uint_at(r, "end"@, "line"@) == Some(to as nat),
        from <= to,
        first <= last,
    ensures
        meets_lines(d, first, last) <==> exists|n: int|
            from <= n <= to && #[trigger] in_lines(n, first, last),
{
    if meets_lines(d, first, last) {
        let n = if from >= first {
            from as int
        } else {
            first as int
        };
        assert(in_lines(n, first, last));
    }
}

/// Whether a line is one of those from `first` to `last`.
pub open spec fn in_lines(n: int, first: u32, last: u32) -> bool {
    first <= n <= last
}

/// Whether the lines of a diagnostic meet those from `start_line` to
/// `end_line`.
pub fn intersects(diag: &Json, start_line: u32, end_line: u32) -> (r: bool)
    ensures
        r == meets_lines(diag@, start_line, end_line),
{
    match plain_range_of(diag) {
        Some(r) => match (r.uint_at("start", "line"), r.uint_at("end", "line")) {
            (Some(ds), Some(de)) => !((de as u32) < start_line || (ds as u32) > end_line),
            _ => false,
        },
        None => false,
    }
}

/// The diagnostics whose lines meet those from `start_line` to `end_line`
/// (from 0), in their order.
pub fn filter_diagnostics_by_line_range(
    diagnostics: &[Json],
    start_line: u32,
    end_line: u32,
) -> (r: Vec<Json>)
    ensures
        views(r@) == views(diagnostics@).filter(
            |d: JsonView| meets_lines(d, start_line, end_line),
        ),
{
    let mut kept: Vec<Json> = Vec::new();
    let ghost ds = views(diagnostics@);
    let ghost f = |d: JsonView| meets_lines(d, start_line, end_line);
    proof {
        reveal(Seq::filter);
        assert(views(kept@) =~= ds.take(0).filter(f));
    }
    for i in 0..diagnostics.len()
        invariant
            ds == views(diagnostics@),
            f == (|d: JsonView| meets_lines(d, start_line, end_line)),
            views(kept@) == ds.take(i as int).filter(f),
    {
        proof {
            lemma_filter_next(ds, f, i as int);
            assert(ds[i as int] == diagnostics@[i as int]@);
        }
        if intersects(&diagnostics[i], start_line, end_line) {
            let ghost before = kept@;
            kept.push(diagnostics[i].duplicate());
            proof {
                lemma_views_push(before, kept@.last());
            }
        }
    }
    proof {
        lemma_take_all(ds);
    }
    kept
}

// ---------------------------------------------------------------------------
// Where a snippet goes
// ---------------------------------------------------------------------------

/// The column (from 0, in bytes) at which a snippet is put into a line: that of
/// the line's first character that is no white space, or the column given
/// (from 1), which must not lie beyond the line's end.
pub open spec fn column_of(line_text: Seq<char>, column: Option<u32>) -> Result<int, ErrorView> {
    match column {
        None => Ok(first_non_space(line_text) as u32 as int),
        Some(c) => if c == 0 || c > byte_len(line_text) + 1 {
            Err(ErrorView::ColumnOutOfRange { column: c as nat, length: byte_len(line_text) })
        } else {
            Ok(c - 1)
        },
    }
}

/// The column (from 0, in bytes) at which a snippet is put into a line.
pub fn resolve_column(line_text: &str, column: Option<u32>) -> (r: Result<u32, LeanToolError>)
    ensures
        match r {
            Ok(c) => column_of(line_text@, column) == Ok::<int, ErrorView>(c as int),
            Err(e) => column_of(line_text@, column) == Err::<int, ErrorView>(e@),
        },
{
    match column {
        None => Ok(indent_bytes(line_text) as u32),
        Some(col) => {
            let length: usize = str_bytes(line_text);
            if col == 0 || col as usize - 1 > length {
                return Err(LeanToolError::ColumnOutOfRange { column: col, length });
            }
            Ok(col - 1)
        },
    }
}

/// A snippet without the line breaks at its end.
pub open spec fn snippet_text(snippet: Seq<char>) -> Seq<char> {
    trim_end_char_of(snippet, '\n')
}

/// The lines of a snippet.
pub open spec fn snippet_lines(snippet: Seq<char>) -> Seq<Seq<char>> {
    split_of(snippet_text(snippet), '\n')
}

/// The lines that are put into the file for a snippet: its first line as it
/// is, the others behind what stands before the column in the target line.
pub open spec fn payload_lines(indent: Seq<char>, snippet: Seq<char>) -> Seq<Seq<char>> {
    let parts = snippet_lines(snippet);
    Seq::new(
        parts.len(),
        |i: int|
            if i == 0 {
                parts[0]
            } else {
                indent + parts[i]
            },
    )
}

/// A position in an edit.
pub open spec fn position_json(line: int, character: int) -> JsonView {
    pair_of(
        "character"@,
        JsonView::PosInt(character as u64),
        "line"@,
        JsonView::PosInt(line as u64),
    )
}

/// The edit that puts a snippet into a file, and where its goals are looked
/// for.
pub struct EditView {
    /// The snippet without the line breaks at its end.
    pub snippet: Seq<char>,
    /// The change to the file.
    pub change: JsonView,
    /// The line (from 0) of the snippet's end.
    pub goal_line: u32,
    /// The column (from 0) of the snippet's end.
    pub goal_column: u32,
}

/// Whether a snippet can be put into a line at a column: the column is where a
/// character of the line begins, or its end, and the snippet's end is at a line
/// and a column of 32 bits.
pub open spec fn fits(
    line_text: Seq<char>,
    target_col: u32,
    snippet: Seq<char>,
    line: u32,
) -> bool {
    let parts = snippet_lines(snippet);
    &&& is_boundary(line_text, target_col as int)
    &&& line >= 1
    &&& line - 1 + parts.len() <= u32::MAX
    &&& parts.len() == 1 ==> target_col + byte_len(parts[0]) <= u32::MAX
}

/// The edit that puts a snippet into line `line` (from 1) of a file of
/// `total_lines` lines: it replaces what stands from the column `target_col`
/// on, over as many lines as the snippet has.
pub open spec fn edit_of(
    line_text: Seq<char>,
    target_col: u32,
    snippet: Seq<char>,
    total_lines: nat,
    line: u32,
) -> EditView {
    let payload = payload_lines(byte_take(line_text, target_col as int), snippet);
    let end_line = if line - 1 + payload.len() <= total_lines {
        line - 1 + payload.len()
    } else {
        total_lines as int
    };
    EditView {
        snippet: snippet_text(snippet),
        change: pair_of(
            "range"@,
            pair_of(
                "end"@,
                position_json(end_line, 0),
                "start"@,
                position_json(line - 1, target_col as int),
            ),
            "text"@,
            JsonView::Str(join_of(payload, "\n"@) + "\n"@),
        ),
        goal_line: (line - 1 + payload.len() - 1) as u32,
        goal_column: if payload.len() == 1 {
            (target_col + byte_len(payload[0])) as u32
        } else {
            byte_len(payload.last()) as u32
        },
    }
}

/// The edit for a snippet replaces what stands from the column of its line on, over as
/// many lines as the snippet has, with the snippet's lines, those behind the first
/// behind what stands before the column; its goals are looked for at its very end.
pub proof fn lemma_edit_told(
    line_text: Seq<char>,
    target_col: u32,
    snippet: Seq<char>,
    total_lines: nat,
    line: u32,
)
    requires
        fits(line_text, target_col, snippet, line),
        total_lines <= u32::MAX,
    ensures
        ({
            let e = edit_of(line_text, target_col, snippet, total_lines, line);
            let indent = byte_take(line_text, target_col as int);
            let parts = split_of(trim_end_char_of(snippet, '\n'), '\n');
            let n = parts.len() as int;
            let rows = Seq::new(
                parts.len(),
                |i: int|
                    if i == 0 {
                        parts[0]
                    } else {
                        indent + parts[i]
                    },
            );
            let range = e.change.member("range"@)->0;
            let end = if line - 1 + n <= total_lines {
                line - 1 + n
            } else {
                total_lines as int
            };
            &&& e.snippet == trim_end_char_of(snippet, '\n')
            &&& e.change.member("range"@) is Some
            &&& range.member2("start"@, "line"@) == Some(JsonView::PosInt((line - 1) as u64))
            &&& range.member2("start"@, "character"@) == Some(JsonView::PosInt(target_col as u64))
            &&& range.member2("end"@, "line"@) == Some(JsonView::PosInt(end as u64))
            &&& range.member2("end"@, "character"@) == Some(JsonView::PosInt(0))
            &&& e.change.member("text"@) == Some(
                JsonView::Str(join_of(rows, seq!['\n']) + seq!['\n']),
            )
            &&& e.goal_line == line - 1 + n - 1
            &&& n == 1 ==> e.goal_column == target_col + byte_len(parts[0])
            &&& n > 1 && byte_len(rows.last()) <= u32::MAX ==> e.goal_column == byte_len(
                rows.last(),
            )
        }),
{
    reveal_strlit("range");
    reveal_strlit("text");
    reveal_strlit("start");
    reveal_strlit("end");
    reveal_strlit("line");
    reveal_strlit("character");
    reveal_strlit("\n");
    assert("\n"@ =~= seq!['\n']);
    reveal_with_fuel(crate::json::lookup, 4);
    let e = edit_of(line_text, target_col, snippet, total_lines, line);
    let parts = split_of(trim_end_char_of(snippet, '\n'), '\n');
    assert("range"@.len() == 5 && "text"@.len() == 4);
    assert("start"@.len() == 5 && "end"@.len() == 3);
    assert("line"@.len() == 4 && "character"@.len() == 9);
    let range = e.change.member("range"@)->0;
    let payload = payload_lines(byte_take(line_text, target_col as int), snippet);
    crate::text::lemma_split_nonempty(trim_end_char_of(snippet, '\n'), '\n');
    assert(e.change->Object_0.skip(1)[0].0 == "text"@);
    let r0 = range->Object_0;
    assert(r0.skip(1)[0] == r0[1]);
    let s0 = range.member("start"@)->0->Object_0;
    let e0 = range.member("end"@)->0->Object_0;
    assert(s0.skip(1)[0] == s0[1]);
    assert(e0.skip(1)[0] == e0[1]);
    assert(payload =~= Seq::new(
        parts.len(),
        |i: int|
            if i == 0 {
                parts[0]
            } else {
                byte_take(line_text, target_col as int) + parts[i]
            },
    ));
}

/// A snippet is put at the column that is given, counted from 0, or before the line's
/// first character that is no white space; a column beyond the line's end is refused.
pub proof fn lemma_column_told(line_text: Seq<char>, column: Option<u32>)
    ensures
        column is None ==> column_of(line_text, column) == Ok::<int, ErrorView>(
            first_non_space(line_text) as u32 as int,
        ),
        column matches Some(c) ==> column_of(line_text, column) == if 1 <= c <= byte_len(line_text)
            + 1 {
            Ok::<int, ErrorView>(c - 1)
        } else {
            Err(ErrorView::ColumnOutOfRange { column: c as nat, length: byte_len(line_text) })
        },
{
}

/// Whether a snippet can be put into a line at a column.
pub fn edit_fits(line_text: &str, target_col: u32, snippet: &str, line: u32) -> (r: bool)
    ensures
        r == fits(line_text@, target_col, snippet@, line),
{
    if line == 0 || !at_boundary(line_text, target_col as usize) {
        return false;
    }
    let snippet_str = text_of(trim_end_char(&chars_of(snippet), '\n'));
    let parts = split(snippet_str.as_str(), '\n');
    proof {
        assert(texts(parts@)[0] == parts@[0]@);
    }
    if parts.len() > (u32::MAX - (line - 1)) as usize {
        return false;
    }
    parts.len() != 1 || str_bytes(parts[0].as_str()) <= (u32::MAX - target_col) as usize
}

/// A position in an edit.
fn position_value(line: u32, character: u32) -> (r: Json)
    ensures
        r@ == position_json(line as int, character as int),
{
    pair("character", Json::PosInt(character as u64), "line", Json::PosInt(line as u64))
}

/// The edit that puts a snippet into a file: the snippet without the line
/// breaks at its end, the change, and the line and column (from 0) at which
/// its goals are looked for.
pub fn prepare_edit(
    line_text: &str,
    target_col: u32,
    snippet: &str,
    total_lines: usize,
    line_1: u32,
) -> (r: (String, Json, u32, u32))
    requires
        fits(line_text@, target_col, snippet@, line_1),
    ensures
        edit_of(line_text@, target_col, snippet@, total_lines as nat, line_1) == (EditView {
            snippet: r.0@,
            change: r.1@,
            goal_line: r.2,
            goal_column: r.3,
        }),
{
    let snippet_str = text_of(trim_end_char(&chars_of(snippet), '\n'));
    let parts = split(snippet_str.as_str(), '\n');
    let indent = str_prefix(line_text, target_col as usize);
    let ghost payload = payload_lines(indent@, snippet@);
    let mut lines: Vec<String> = Vec::new();
    proof {
        assert(texts(parts@) == snippet_lines(snippet@));
    }
    for i in 0..parts.len()
        invariant
            payload == payload_lines(indent@, snippet@),
            texts(parts@) == snippet_lines(snippet@),
            texts(lines@) == payload.take(i as int),
    {
        let ghost before = lines@;
        proof {
            assert(texts(parts@)[i as int] == parts@[i as int]@);
            assert(payload.take(i + 1) == payload.take(i as int).push(payload[i as int]));
        }
        if i == 0 {
            lines.push(parts[i].clone());
        } else {
            lines.push(glue(indent, parts[i].as_str()));
        }
        proof {
            assert(texts(lines@) == texts(before).push(lines@.last()@));
        }
    }
    proof {
        lemma_take_all(payload);
        assert(texts(lines@).len() == lines@.len());
        assert(texts(lines@)[0] == lines@[0]@);
        assert(texts(lines@).last() == lines@.last()@);
        assert(texts(parts@)[0] == parts@[0]@);
    }
    let count: usize = lines.len();
    let text = glue(join(&lines, "\n").as_str(), "\n");
    let last_line: usize = (line_1 - 1) as usize + count;
    let end_line: usize = if last_line <= total_lines {
        last_line
    } else {
        total_lines
    };
    let change = pair(
        "range",
        pair(
            "end",
            position_value(end_line as u32, 0),
            "start",
            position_value(line_1 - 1, target_col),
        ),
        "text",
        Json::Str(text),
    );
    let goal_line: u32 = (line_1 - 1) + count as u32 - 1;
    let goal_column: u32 = if count == 1 {
        target_col + str_bytes(lines[0].as_str()) as u32
    } else {
        str_bytes(lines[count - 1].as_str()) as u32
    };
    (snippet_str, change, goal_line, goal_column)
}

// ---------------------------------------------------------------------------
// What comes of a snippet
// ---------------------------------------------------------------------------

/// A diagnostic that stands at no position.
pub open spec fn placeless(severity: Seq<char>, message: Seq<char>) -> DiagnosticMessageView {
    DiagnosticMessageView { severity, message, line: 0, column: 0 }
}

/// An attempt that came to nothing but a message.
pub open spec fn lone_message(
    snippet: Seq<char>,
    severity: Seq<char>,
    message: Seq<char>,
    timed_out: bool,
) -> AttemptResultView {
    AttemptResultView {
        snippet,
        goals: Seq::empty(),
        diagnostics: seq![placeless(severity, message)],
        timed_out,
    }
}

/// An attempt that failed.
pub open spec fn failed_attempt(snippet: Seq<char>, message: Seq<char>) -> AttemptResultView {
    lone_message(snippet, "error"@, message, false)
}

/// An attempt that took longer than `limit` seconds.
pub open spec fn late_attempt(snippet: Seq<char>, limit: Seq<char>) -> AttemptResultView {
    lone_message(snippet, "warning"@, "Tactic timed out after "@ + limit + "s"@, true)
}

/// An attempt that came to nothing but a message.
fn attempt_with(snippet: String, severity: &str, message: String, timed_out: bool) -> (r:
    AttemptResult)
    ensures
        r@ == lone_message(snippet@, severity@, message@, timed_out),
{
    let mut diagnostics: Vec<DiagnosticMessage> = Vec::new();
    diagnostics.push(
        DiagnosticMessage { severity: severity.to_owned(), message, line: 0, column: 0 },
    );
    let r = AttemptResult { snippet, goals: Vec::new(), diagnostics, timed_out };
    proof {
        assert(r@.goals =~= Seq::empty());
        assert(r@.diagnostics =~= seq![placeless(severity@, message@)]);
    }
    r
}

/// An attempt that took longer than `limit` seconds.
fn attempt_late(snippet: String, limit: &str) -> (r: AttemptResult)
    ensures
        r@ == late_attempt(snippet@, limit@),
{
    attempt_with(snippet, "warning", glue3("Tactic timed out after ", limit, "s"), true)
}

// ---------------------------------------------------------------------------
// Looking at a snippet in the language server
// ---------------------------------------------------------------------------

/// Where the diagnostics and the goals of a snippet are looked for.
pub struct CheckView {
    /// The file that holds the snippet.
    pub path: Seq<char>,
    /// The snippet as it is told of.
    pub snippet: Seq<char>,
    /// The first line (from 0) whose diagnostics count.
    pub first_line: u32,
    /// The last line (from 0) whose diagnostics count.
    pub last_line: u32,
    /// The line (from 0) at which the goals are asked for.
    pub goal_line: u32,
    /// The column (from 0) at which the goals are asked for.
    pub goal_column: u32,
    /// The number of seconds that the snippet may take, where it is limited.
    pub limit: Option<Seq<char>>,
}

/// The outcome where no reply of the wanted kind came: the time was over, or
/// the request failed.
pub open spec fn missed(
    limit: Option<Seq<char>>,
    snippet: Seq<char>,
    operation: Seq<char>,
    r: ReplyView,
) -> Result<AttemptResultView, ErrorView> {
    match limit {
        Some(seconds) => if r is TimedOut {
            Ok(late_attempt(snippet, seconds))
        } else {
            Err(lsp_failure(operation, r.trouble()))
        },
        None => Err(lsp_failure(operation, r.trouble())),
    }
}

/// The messages of the snippet's lines, out of all that the file gave.
pub open spec fn messages_within(c: CheckView, raw: JsonView) -> Seq<DiagnosticMessageView> {
    let all = match items_member(raw, "diagnostics"@) {
        Some(ds) => ds,
        None => Seq::empty(),
    };
    messages_of(all.filter(|d: JsonView| meets_lines(d, c.first_line, c.last_line)))
}

/// After the goals came.
pub open spec fn with_goals(
    c: CheckView,
    diagnostics: Seq<DiagnosticMessageView>,
) -> Waiting<Result<AttemptResultView, ErrorView>> {
    |r: ReplyView|
        Dialogue::Finish(
            match r {
                ReplyView::Texts(goals) => Ok(
                    AttemptResultView { snippet: c.snippet, goals, diagnostics, timed_out: false },
                ),
                _ => missed(c.limit, c.snippet, "get_goal"@, r),
            },
        )
}

/// After the diagnostics came.
pub open spec fn with_diagnostics(c: CheckView) -> Waiting<Result<AttemptResultView, ErrorView>> {
    |r: ReplyView|
        match r {
            ReplyView::Value(raw) => Dialogue::Ask(
                RequestView::Goal { path: c.path, line: c.goal_line, column: c.goal_column },
                with_goals(c, messages_within(c, raw)),
            ),
            _ => Dialogue::Finish(missed(c.limit, c.snippet, "get_diagnostics"@, r)),
        }
}

/// Looks at a snippet that stands in a file: first its diagnostics, then its
/// goals.
pub open spec fn check_dialogue(c: CheckView) -> Dialogue<Result<AttemptResultView, ErrorView>> {
    Dialogue::Ask(
        RequestView::Diagnostics { path: c.path, start_line: None, end_line: None, bounded: true },
        with_diagnostics(c),
    )
}

/// A look at a snippet, which waits for diagnostics or goals.
pub struct Check {
    pub path: String,
    pub snippet: String,
    pub first_line: u32,
    pub last_line: u32,
    pub goal_line: u32,
    pub goal_column: u32,
    pub limit: Option<String>,
    /// The messages of the snippet, once they are known.
    pub messages: Option<Vec<DiagnosticMessage>>,
}

impl View for Check {
    type V = CheckView;

    open spec fn view(&self) -> CheckView {
        CheckView {
            path: self.path@,
            snippet: self.snippet@,
            first_line: self.first_line,
            last_line: self.last_line,
            goal_line: self.goal_line,
            goal_column: self.goal_column,
            limit: opt_text(self.limit),
        }
    }
}

/// The outcome where no reply of the wanted kind came.
fn miss(limit: &Option<String>, snippet: String, operation: &str, reply: Reply) -> (r: Result<
    AttemptResult,
    LeanToolError,
>)
    ensures
        result_view(r) == missed(opt_text(*limit), snippet@, operation@, reply@),
{
    if let Some(seconds) = limit {
        if let Reply::TimedOut = reply {
            return Ok(attempt_late(snippet, seconds.as_str()));
        }
    }
    Err(lsp_error(operation, reply.message()))
}

impl Waits for Check {
    type Out = Result<AttemptResult, LeanToolError>;

    type Said = Result<AttemptResultView, ErrorView>;

    open spec fn said(o: Self::Out) -> Self::Said {
        result_view(o)
    }

    open spec fn valid(self) -> bool {
        true
    }

    open spec fn waiting(self) -> Waiting<Self::Said> {
        match self.messages {
            None => with_diagnostics(self@),
            Some(ms) => with_goals(self@, all_views(ms@)),
        }
    }

    open spec fn admits(self, r: ReplyView) -> bool {
        true
    }
}

impl Call for Check {
    fn accepts(&self, reply: &Reply) -> (r: bool) {
        true
    }

    fn resume(self, reply: Reply) -> (t: Turn<Self, Self::Out>) {
        match self.messages {
            None => match reply {
                Reply::Value(raw) => {
                    let messages = match raw.items_member("diagnostics") {
                        Some(all) => to_diagnostic_messages(
                            &filter_diagnostics_by_line_range(all, self.first_line, self.last_line),
                        ),
                        None => {
                            let none: Vec<DiagnosticMessage> = Vec::new();
                            proof {
                                reveal(Seq::filter);
                                assert(all_views(none@) =~= messages_within(self@, raw@));
                            }
                            none
                        },
                    };
                    let q = Request::Goal {
                        path: self.path.clone(),
                        line: self.goal_line,
                        column: self.goal_column,
                    };
                    Turn::Ask(q, Check { messages: Some(messages), ..self })
                },
                other => Turn::Done(miss(&self.limit, self.snippet, "get_diagnostics", other)),
            },
            Some(diagnostics) => match reply {
                Reply::Texts(goals) => Turn::Done(
                    Ok(
                        AttemptResult {
                            snippet: self.snippet,
                            goals,
                            diagnostics,
                            timed_out: false,
                        },
                    ),
                ),
                other => Turn::Done(miss(&self.limit, self.snippet, "get_goal", other)),
            },
        }
    }
}

impl Check {
    /// Begins the look.
    pub fn begin(self) -> (t: Turn<Check, Result<AttemptResult, LeanToolError>>)
        requires
            self.messages is None,
        ensures
            begins(t, check_dialogue(self@)),
    {
        let q = Request::Diagnostics {
            path: self.path.clone(),
            start_line: None,
            end_line: None,
            bounded: true,
        };
        Turn::Ask(q, self)
    }
}

/// After the words for an error came.
pub open spec fn worded(snippet: Seq<char>) -> Waiting<AttemptResultView> {
    |r: ReplyView|
        Dialogue::Finish(
            failed_attempt(
                snippet,
                match r {
                    ReplyView::Text(words) => words,
                    _ => Seq::empty(),
                },
            ),
        )
}

/// The end of an attempt, in which an error becomes a message.
pub open spec fn conclude(
    snippet: Seq<char>,
    res: Result<AttemptResultView, ErrorView>,
) -> Dialogue<AttemptResultView> {
    match res {
        Ok(a) => Dialogue::Finish(a),
        Err(error) => Dialogue::Ask(RequestView::ErrorText { error }, worded(snippet)),
    }
}

// ---------------------------------------------------------------------------
// One snippet, in the file itself
// ---------------------------------------------------------------------------

/// Line `line` (from 1) of some lines, and an empty line where there is none.
pub open spec fn line_or_empty(lines: Seq<Seq<char>>, line: u32) -> Seq<char> {
    if 1 <= line <= lines.len() {
        lines[line - 1]
    } else {
        Seq::empty()
    }
}

/// After the file was put back.
pub open spec fn warm_restored(
    snippet: Seq<char>,
    res: Result<AttemptResultView, ErrorView>,
) -> Waiting<AttemptResultView> {
    |r: ReplyView| conclude(snippet, res)
}

/// Puts the file back, whatever came of the attempt.
pub open spec fn warm_restore(
    path: Seq<char>,
    content: Seq<char>,
    snippet: Seq<char>,
) -> spec_fn(Result<AttemptResultView, ErrorView>) -> Dialogue<AttemptResultView> {
    |res: Result<AttemptResultView, ErrorView>|
        Dialogue::Ask(RequestView::ReplaceContent { path, content }, warm_restored(snippet, res))
}

/// After the edit.
pub open spec fn warm_edited(c: CheckView, content: Seq<char>) -> Waiting<AttemptResultView> {
    |r: ReplyView|
        if r is Done {
            followed(check_dialogue(c), warm_restore(c.path, content, c.snippet))
        } else {
            (warm_restore(c.path, content, c.snippet))(
                missed(c.limit, c.snippet, "update_file"@, r),
            )
        }
}

/// What is looked at for an edit.
pub open spec fn check_of(
    path: Seq<char>,
    line: u32,
    edit: EditView,
    limit: Option<Seq<char>>,
) -> CheckView {
    CheckView {
        path,
        snippet: edit.snippet,
        first_line: (line - 1) as u32,
        last_line: edit.goal_line,
        goal_line: edit.goal_line,
        goal_column: edit.goal_column,
        limit,
    }
}

/// Tries one snippet at a place of an open file: edits the file, looks at the
/// diagnostics and the goals, and puts the file back. No failure is passed on:
/// it becomes a message of the attempt.
pub open spec fn warm_dialogue(
    path: Seq<char>,
    content: Seq<char>,
    line: u32,
    target_col: u32,
    snippet: Seq<char>,
    limit: Option<Seq<char>>,
) -> Dialogue<AttemptResultView> {
    let lines = lines_of(content);
    let edit = edit_of(line_or_empty(lines, line), target_col, snippet, lines.len(), line);
    Dialogue::Ask(
        RequestView::UpdateFile { path, change: edit.change },
        warm_edited(check_of(path, line, edit, limit), content),
    )
}

/// One snippet at work in the file itself.
pub enum WarmAttempt {
    /// Waits for the edit.
    Editing { check: Check, content: String },
    /// Waits for the diagnostics or the goals.
    Checking { check: Check, path: String, content: String, snippet: String },
    /// Waits until the file is put back.
    Restoring { snippet: String, res: Result<AttemptResult, LeanToolError> },
    /// Waits for the words of an error.
    Wording { snippet: String },
}

/// The end of an attempt, in which an error becomes a message.
fn concluded(res: Result<AttemptResult, LeanToolError>) -> (r: Result<AttemptResult, Request>)
    ensures
        match r {
            Ok(a) => result_view(res) == Ok::<_, ErrorView>(a@),
            Err(q) => res is Err && q@ == (RequestView::ErrorText { error: res->Err_0@ }),
        },
{
    match res {
        Ok(a) => Ok(a),
        Err(error) => Err(Request::ErrorText { error }),
    }
}

/// The words that came for an error.
fn words(reply: Reply) -> (r: String)
    ensures
        r@ == match reply@ {
            ReplyView::Text(words) => words,
            _ => Seq::empty(),
        },
{
    match reply {
        Reply::Text(words) => words,
        _ => String::new(),
    }
}

impl WarmAttempt {
    /// Puts the file back.
    fn restore(
        path: String,
        content: String,
        snippet: String,
        res: Result<AttemptResult, LeanToolError>,
    ) -> (t: Turn<WarmAttempt, AttemptResult>)
        ensures
            begins(t, (warm_restore(path@, content@, snippet@))(result_view(res))),
    {
        Turn::Ask(
            Request::ReplaceContent { path, content },
            WarmAttempt::Restoring { snippet, res },
        )
    }

    /// Goes on with the look at the snippet.
    fn checked(
        t: Turn<Check, Result<AttemptResult, LeanToolError>>,
        path: String,
        content: String,
        snippet: String,
    ) -> (r: Turn<WarmAttempt, AttemptResult>)
        ensures
            forall|d: Dialogue<Result<AttemptResultView, ErrorView>>| #[trigger]
                begins(t, d) ==> begins(
                    r,
                    followed(d, warm_restore(path@, content@, snippet@)),
                ),
    {
        match t {
            Turn::Ask(q, check) => {
                proof {
                    lemma_followed(q@, check.waiting(), warm_restore(path@, content@, snippet@));
                }
                Turn::Ask(q, WarmAttempt::Checking { check, path, content, snippet })
            },
            Turn::Done(res) => WarmAttempt::restore(path, content, snippet, res),
        }
    }

    /// Whether the time of the snippet counts while this reply is waited for.
    pub fn limited(&self) -> (r: bool)
        ensures
            r == (self is Editing || self is Checking),
    {
        match self {
            WarmAttempt::Editing { .. } => true,
            WarmAttempt::Checking { .. } => true,
            _ => false,
        }
    }
}

impl Waits for WarmAttempt {
    type Out = AttemptResult;

    type Said = AttemptResultView;

    open spec fn said(o: AttemptResult) -> AttemptResultView {
        o@
    }

    open spec fn valid(self) -> bool {
        match self {
            WarmAttempt::Editing { check, .. } => check.messages is None,
            _ => true,
        }
    }

    open spec fn waiting(self) -> Waiting<AttemptResultView> {
        match self {
            WarmAttempt::Editing { check, content } => warm_edited(check@, content@),
            WarmAttempt::Checking { check, path, content, snippet } => waiting_first(
                check.waiting(),
                warm_restore(path@, content@, snippet@),
            ),
            WarmAttempt::Restoring { snippet, res } => warm_restored(snippet@, result_view(res)),
            WarmAttempt::Wording { snippet } => worded(snippet@),
        }
    }

    open spec fn admits(self, r: ReplyView) -> bool {
        true
    }
}

impl Call for WarmAttempt {
    fn accepts(&self, reply: &Reply) -> (r: bool) {
        true
    }

    fn resume(self, reply: Reply) -> (t: Turn<Self, AttemptResult>) {
        match self {
            WarmAttempt::Editing { check, content } => {
                let path = check.path.clone();
                let snippet = check.snippet.clone();
                if let Reply::Done = reply {
                    WarmAttempt::checked(check.begin(), path, content, snippet)
                } else {
                    let res = miss(&check.limit, check.snippet, "update_file", reply);
                    WarmAttempt::restore(path, content, snippet, res)
                }
            },
            WarmAttempt::Checking { check, path, content, snippet } => WarmAttempt::checked(
                check.resume(reply),
                path,
                content,
                snippet,
            ),
            WarmAttempt::Restoring { snippet, res } => match concluded(res) {
                Ok(a) => Turn::Done(a),
                Err(q) => Turn::Ask(q, WarmAttempt::Wording { snippet }),
            },
            WarmAttempt::Wording { snippet } => Turn::Done(
                attempt_with(snippet, "error", words(reply), false),
            ),
        }
    }
}

/// Tries one snippet at a place of an open file, whose content is
/// `original_content`. `line` counts from 1 and `target_col` from 0.
pub fn run_one_snippet_warm(
    file_path: &str,
    original_content: &str,
    line: u32,
    target_col: u32,
    snippet: &str,
    limit: Option<String>,
) -> (t: Turn<WarmAttempt, AttemptResult>)
    requires
        fits(line_or_empty(lines_of(original_content@), line), target_col, snippet@, line),
    ensures
        begins(
            t,
            warm_dialogue(
                file_path@,
                original_content@,
                line,
                target_col,
                snippet@,
                opt_text(limit),
            ),
        ),
{
    let lines = lines(original_content);
    let line_text = if line >= 1 && line as usize <= lines.len() {
        lines[(line - 1) as usize].clone()
    } else {
        String::new()
    };
    proof {
        assert(line_text@ =~= line_or_empty(texts(lines@), line));
    }
    let (snippet_str, change, goal_line, goal_column) = prepare_edit(
        line_text.as_str(),
        target_col,
        snippet,
        lines.len(),
        line,
    );
    let check = Check {
        path: file_path.to_owned(),
        snippet: snippet_str,
        first_line: line - 1,
        last_line: goal_line,
        goal_line,
        goal_column,
        limit,
        messages: None,
    };
    Turn::Ask(
        Request::UpdateFile { path: file_path.to_owned(), change },
        WarmAttempt::Editing { check, content: original_content.to_owned() },
    )
}

// ---------------------------------------------------------------------------
// One snippet, in a file of its own
// ---------------------------------------------------------------------------

/// Each line of a snippet behind the indentation.
pub open spec fn indented(snippet: Seq<char>, indent: Seq<char>) -> Seq<char> {
    join_of(lines_of(snippet_text(snippet)).map_values(|l: Seq<char>| indent + l), "\n"@)
}

/// The file in which a snippet is tried: the code before it, the snippet, and
/// `sorry`.
pub open spec fn isolated_code(
    snippet: Seq<char>,
    base_code: Seq<char>,
    indent: Seq<char>,
) -> Seq<char> {
    let tail = indented(snippet, indent) + "\n"@ + indent + "sorry"@;
    if base_code.len() == 0 {
        tail
    } else {
        base_code + "\n"@ + tail
    }
}

/// The path of a temporary file, below the project's root.
pub open spec fn attempt_path(id: Seq<char>) -> Seq<char> {
    ".lake/_mcp/_mcp_attempt_"@ + id + ".lean"@
}

/// The number of lines that a snippet takes.
pub open spec fn snippet_height(snippet: Seq<char>) -> nat {
    let n = lines_of(snippet_text(snippet)).len();
    if n == 0 {
        1
    } else {
        n
    }
}

/// The last line of a snippet.
pub open spec fn last_line(snippet: Seq<char>) -> Seq<char> {
    let ls = lines_of(snippet_text(snippet));
    if ls.len() == 0 {
        Seq::empty()
    } else {
        ls.last()
    }
}

/// The number of lines that stand before the snippet in its file.
pub open spec fn lines_above(base_code: Seq<char>) -> nat {
    if base_code.len() == 0 {
        0
    } else {
        split_of(base_code, '\n').len()
    }
}

/// The number of lines that stand before the snippet in its file.
fn count_above(base_code: &str) -> (r: usize)
    ensures
        r == lines_above(base_code@),
{
    proof {
        lemma_byte_len_chars(base_code@);
    }
    if str_bytes(base_code) == 0 {
        return 0;
    }
    let pieces = split(base_code, '\n');
    proof {
        assert(texts(pieces@).len() == pieces@.len());
    }
    pieces.len()
}

/// Whether the end of a snippet in its file is at a line and a column of 32
/// bits.
pub open spec fn isolated_fits(
    snippet: Seq<char>,
    base_code: Seq<char>,
    indent: Seq<char>,
) -> bool {
    &&& lines_above(base_code) + snippet_height(snippet) <= u32::MAX
    &&& byte_len(indent) + byte_len(last_line(snippet)) <= u32::MAX
}

/// What is looked at for a snippet in a file of its own: the snippet's lines
/// and that of the `sorry`, and the goals at the snippet's end.
pub open spec fn isolated_check(
    path: Seq<char>,
    snippet: Seq<char>,
    base_code: Seq<char>,
    indent: Seq<char>,
    limit: Option<Seq<char>>,
) -> CheckView {
    let first = lines_above(base_code);
    let height = snippet_height(snippet);
    CheckView {
        path,
        snippet: snippet_text(snippet),
        first_line: first as u32,
        last_line: (first + height) as u32,
        goal_line: (first + height - 1) as u32,
        goal_column: (byte_len(indent) + byte_len(last_line(snippet))) as u32,
        limit,
    }
}

/// Each line of a snippet stands where its file is looked at: from the first line
/// on, behind the indentation. The line of the `sorry` is the one behind them.
pub proof fn lemma_snippet_in_place(snippet: Seq<char>, base_code: Seq<char>, indent: Seq<char>)
    requires
        !indent.contains('\n'),
    ensures
        ({
            let rows = split_of(isolated_code(snippet, base_code, indent), '\n');
            let first = lines_above(base_code) as int;
            let ls = lines_of(snippet_text(snippet));
            &&& rows.len() == first + snippet_height(snippet) + 1
            &&& forall|i: int| 0 <= i < ls.len() ==> #[trigger] rows[first + i] == indent + ls[i]
            &&& rows[first + snippet_height(snippet)] == indent + "sorry"@
            &&& base_code.len() > 0 ==> rows.take(first) == split_of(base_code, '\n')
        }),
{
    reveal_strlit("\n");
    reveal_strlit("sorry");
    assert("\n"@ =~= seq!['\n']);
    let ls = lines_of(snippet_text(snippet));
    let behind = ls.map_values(|l: Seq<char>| indent + l);
    let last = indent + "sorry"@;
    let tail = indented(snippet, indent) + "\n"@ + indent + "sorry"@;
    let own = if ls.len() == 0 {
        seq![Seq::<char>::empty()]
    } else {
        behind
    };
    lemma_lines_unbroken(snippet_text(snippet));
    assert forall|i: int| 0 <= i < own.len() implies !(#[trigger] own[i]).contains('\n') by {
        if ls.len() > 0 {
            assert(!ls[i].contains('\n'));
        }
    }
    assert(indented(snippet, indent) == join_of(own, seq!['\n']));
    lemma_split_join(own, '\n');
    assert(!last.contains('\n'));
    lemma_split_whole(last, '\n');
    let ended = indented(snippet, indent) + seq!['\n'];
    assert(ended.drop_last() =~= indented(snippet, indent));
    assert(split_of(ended, '\n').drop_last() =~= own);
    lemma_split_behind(ended, last, '\n');
    assert(ended + last =~= tail);
    if base_code.len() == 0 {
        assert(isolated_code(snippet, base_code, indent) == tail);
    } else {
        let above = base_code + seq!['\n'];
        assert(above.drop_last() =~= base_code);
        lemma_split_behind(above, tail, '\n');
        assert(above + tail =~= isolated_code(snippet, base_code, indent));
        assert((split_of(base_code, '\n') + split_of(tail, '\n')).take(
            lines_above(base_code) as int,
        ) =~= split_of(base_code, '\n'));
    }
}

/// After the file was removed.
pub open spec fn isolated_removed(
    snippet: Seq<char>,
    res: Result<AttemptResultView, ErrorView>,
) -> Waiting<AttemptResultView> {
    |r: ReplyView| conclude(snippet, res)
}

/// After the file was closed.
pub open spec fn isolated_closed(
    path: Seq<char>,
    snippet: Seq<char>,
    res: Result<AttemptResultView, ErrorView>,
) -> Waiting<AttemptResultView> {
    |r: ReplyView| Dialogue::Ask(RequestView::RemoveFile { path }, isolated_removed(snippet, res))
}

/// Closes and removes the file, whatever came of the attempt.
pub open spec fn isolated_clean(
    path: Seq<char>,
    snippet: Seq<char>,
) -> spec_fn(Result<AttemptResultView, ErrorView>) -> Dialogue<AttemptResultView> {
    |res: Result<AttemptResultView, ErrorView>|
        Dialogue::Ask(RequestView::CloseFile { path }, isolated_closed(path, snippet, res))
}

/// After the file was opened.
pub open spec fn isolated_opened(c: CheckView) -> Waiting<AttemptResultView> {
    |r: ReplyView|
        if r is Done {
            followed(check_dialogue(c), isolated_clean(c.path, c.snippet))
        } else {
            (isolated_clean(c.path, c.snippet))(missed(c.limit, c.snippet, "open_file"@, r))
        }
}

/// After the file was written.
pub open spec fn isolated_written(c: CheckView) -> Waiting<AttemptResultView> {
    |r: ReplyView|
        if r is Done {
            Dialogue::Ask(RequestView::OpenFile { path: c.path }, isolated_opened(c))
        } else {
            Dialogue::Finish(
                failed_attempt(c.snippet, "Failed to write temp file: "@ + r.trouble()),
            )
        }
}

/// After the directory was made, or not.
pub open spec fn isolated_made(c: CheckView, content: Seq<char>) -> Waiting<AttemptResultView> {
    |r: ReplyView|
        Dialogue::Ask(RequestView::WriteFile { path: c.path, content }, isolated_written(c))
}

/// Tries one snippet in the temporary file `path`: writes the file, opens it,
/// looks at the diagnostics and the goals, and closes and removes it again. No
/// failure is passed on: it becomes a message of the attempt.
pub open spec fn isolated_dialogue(
    path: Seq<char>,
    snippet: Seq<char>,
    base_code: Seq<char>,
    indent: Seq<char>,
    limit: Option<Seq<char>>,
) -> Dialogue<AttemptResultView> {
    Dialogue::Ask(
        RequestView::MakeDirectory { path: ".lake/_mcp"@ },
        isolated_made(
            isolated_check(path, snippet, base_code, indent, limit),
            isolated_code(snippet, base_code, indent),
        ),
    )
}

/// One snippet at work in a file of its own.
pub enum IsolatedAttempt {
    /// Waits until the directory is made.
    Making { check: Check, content: String },
    /// Waits until the file is written.
    Writing { check: Check },
    /// Waits until the file is open.
    Opening { check: Check },
    /// Waits for the diagnostics or the goals.
    Checking { check: Check, path: String, snippet: String },
    /// Waits until the file is closed.
    Closing { path: String, snippet: String, res: Result<AttemptResult, LeanToolError> },
    /// Waits until the file is removed.
    Removing { snippet: String, res: Result<AttemptResult, LeanToolError> },
    /// Waits for the words of an error.
    Wording { snippet: String },
}

impl Waits for IsolatedAttempt {
    type Out = AttemptResult;

    type Said = AttemptResultView;

    open spec fn said(o: AttemptResult) -> AttemptResultView {
        o@
    }

    open spec fn valid(self) -> bool {
        match self {
            IsolatedAttempt::Making { check, .. } => check.messages is None,
            IsolatedAttempt::Writing { check } => check.messages is None,
            IsolatedAttempt::Opening { check } => check.messages is None,
            _ => true,
        }
    }

    open spec fn waiting(self) -> Waiting<AttemptResultView> {
        match self {
            IsolatedAttempt::Making { check, content } => isolated_made(check@, content@),
            IsolatedAttempt::Writing { check } => isolated_written(check@),
            IsolatedAttempt::Opening { check } => isolated_opened(check@),
            IsolatedAttempt::Checking { check, path, snippet } => waiting_first(
                check.waiting(),
                isolated_clean(path@, snippet@),
            ),
            IsolatedAttempt::Closing { path, snippet, res } => isolated_closed(
                path@,
                snippet@,
                result_view(res),
            ),
            IsolatedAttempt::Removing { snippet, res } => isolated_removed(
                snippet@,
                result_view(res),
            ),
            IsolatedAttempt::Wording { snippet } => worded(snippet@),
        }
    }

    open spec fn admits(self, r: ReplyView) -> bool {
        true
    }
}

impl IsolatedAttempt {
    /// Closes the file.
    fn clean(path: String, snippet: String, res: Result<AttemptResult, LeanToolError>) -> (t: Turn<
        IsolatedAttempt,
        AttemptResult,
    >)
        ensures
            begins(t, (isolated_clean(path@, snippet@))(result_view(res))),
    {
        Turn::Ask(
            Request::CloseFile { path: path.clone() },
            IsolatedAttempt::Closing { path, snippet, res },
        )
    }

    /// Goes on with the look at the snippet.
    fn checked(
        t: Turn<Check, Result<AttemptResult, LeanToolError>>,
        path: String,
        snippet: String,
    ) -> (r: Turn<IsolatedAttempt, AttemptResult>)
        ensures
            forall|d: Dialogue<Result<AttemptResultView, ErrorView>>| #[trigger]
                begins(t, d) ==> begins(r, followed(d, isolated_clean(path@, snippet@))),
    {
        match t {
            Turn::Ask(q, check) => {
                proof {
                    lemma_followed(q@, check.waiting(), isolated_clean(path@, snippet@));
                }
                Turn::Ask(q, IsolatedAttempt::Checking { check, path, snippet })
            },
            Turn::Done(res) => IsolatedAttempt::clean(path, snippet, res),
        }
    }

    /// Whether the time of the snippet counts while this reply is waited for.
    pub fn limited(&self) -> (r: bool)
        ensures
            r == (self is Opening || self is Checking),
    {
        match self {
            IsolatedAttempt::Opening { .. } => true,
            IsolatedAttempt::Checking { .. } => true,
            _ => false,
        }
    }
}

impl Call for IsolatedAttempt {
    fn accepts(&self, reply: &Reply) -> (r: bool) {
        true
    }

    fn resume(self, reply: Reply) -> (t: Turn<Self, AttemptResult>) {
        match self {
            IsolatedAttempt::Making { check, content } => Turn::Ask(
                Request::WriteFile { path: check.path.clone(), content },
                IsolatedAttempt::Writing { check },
            ),
            IsolatedAttempt::Writing { check } => match reply.done() {
                Ok(_) => Turn::Ask(
                    Request::OpenFile { path: check.path.clone() },
                    IsolatedAttempt::Opening { check },
                ),
                Err(m) => Turn::Done(
                    attempt_with(
                        check.snippet,
                        "error",
                        glue("Failed to write temp file: ", m.as_str()),
                        false,
                    ),
                ),
            },
            IsolatedAttempt::Opening { check } => {
                let path = check.path.clone();
                let snippet = check.snippet.clone();
                if let Reply::Done = reply {
                    IsolatedAttempt::checked(check.begin(), path, snippet)
                } else {
                    let res = miss(&check.limit, check.snippet, "open_file", reply);
                    IsolatedAttempt::clean(path, snippet, res)
                }
            },
            IsolatedAttempt::Checking { check, path, snippet } => IsolatedAttempt::checked(
                check.resume(reply),
                path,
                snippet,
            ),
            IsolatedAttempt::Closing { path, snippet, res } => Turn::Ask(
                Request::RemoveFile { path },
                IsolatedAttempt::Removing { snippet, res },
            ),
            IsolatedAttempt::Removing { snippet, res } => match concluded(res) {
                Ok(a) => Turn::Done(a),
                Err(q) => Turn::Ask(q, IsolatedAttempt::Wording { snippet }),
            },
            IsolatedAttempt::Wording { snippet } => Turn::Done(
                attempt_with(snippet, "error", words(reply), false),
            ),
        }
    }
}

/// Whether the end of a snippet in its file is at a line and a column of 32
/// bits.
pub fn snippet_fits(snippet: &str, base_code: &str, indent: &str) -> (r: bool)
    ensures
        r == isolated_fits(snippet@, base_code@, indent@),
{
    let snippet_str = text_of(trim_end_char(&chars_of(snippet), '\n'));
    let ls = lines(snippet_str.as_str());
    let base: usize = count_above(base_code);
    let height: usize = if ls.len() == 0 {
        1
    } else {
        ls.len()
    };
    let last: usize = if ls.len() == 0 {
        str_bytes("")
    } else {
        str_bytes(ls[ls.len() - 1].as_str())
    };
    let ind: usize = str_bytes(indent);
    let most: usize = u32::MAX as usize;
    proof {
        reveal_strlit("");
        assert(""@ =~= Seq::<char>::empty());
        if ls@.len() > 0 {
            assert(texts(ls@).last() == ls@.last()@);
        }
    }
    base <= most && height <= most - base && ind <= most && last <= most - ind
}

/// Tries one snippet in the temporary file with the identifier `id`, behind
/// `base_code` and indented by `indent`.
pub fn run_snippet_as(
    id: &str,
    snippet: &str,
    base_code: &str,
    indent: &str,
    limit: Option<String>,
) -> (t: Turn<IsolatedAttempt, AttemptResult>)
    requires
        isolated_fits(snippet@, base_code@, indent@),
    ensures
        begins(
            t,
            isolated_dialogue(
                attempt_path(id@),
                snippet@,
                base_code@,
                indent@,
                opt_text(limit),
            ),
        ),
{
    let snippet_str = text_of(trim_end_char(&chars_of(snippet), '\n'));
    let ls = lines(snippet_str.as_str());
    let ghost f = |l: Seq<char>| indent@ + l;
    let mut behind: Vec<String> = Vec::new();
    proof {
        assert(texts(behind@) =~= texts(ls@).take(0).map_values(f));
    }
    for i in 0..ls.len()
        invariant
            f == (|l: Seq<char>| indent@ + l),
            texts(behind@) == texts(ls@).take(i as int).map_values(f),
    {
        let ghost before = behind@;
        proof {
            lemma_map_next(texts(ls@), f, i as int);
            assert(texts(ls@)[i as int] == ls@[i as int]@);
        }
        behind.push(glue(indent, ls[i].as_str()));
        proof {
            assert(texts(behind@) =~= texts(before).push(behind@.last()@));
        }
    }
    proof {
        lemma_take_all(texts(ls@));
        if ls@.len() > 0 {
            assert(texts(ls@).last() == ls@.last()@);
        }
    }
    let mut tail = join(&behind, "\n");
    tail.append("\n");
    tail.append(indent);
    tail.append("sorry");
    let content = if str_bytes(base_code) == 0 {
        tail
    } else {
        glue3(base_code, "\n", tail.as_str())
    };
    proof {
        lemma_byte_len_chars(base_code@);
    }
    let first: usize = count_above(base_code);
    let height: usize = if ls.len() == 0 {
        1
    } else {
        ls.len()
    };
    let last: usize = if ls.len() == 0 {
        0
    } else {
        str_bytes(ls[ls.len() - 1].as_str())
    };
    proof {
        lemma_byte_len_chars(Seq::<char>::empty());
    }
    let check = Check {
        path: glue3(".lake/_mcp/_mcp_attempt_", id, ".lean"),
        snippet: snippet_str,
        first_line: first as u32,
        last_line: (first + height) as u32,
        goal_line: (first + height - 1) as u32,
        goal_column: (str_bytes(indent) + last) as u32,
        limit,
        messages: None,
    };
    Turn::Ask(
        Request::MakeDirectory { path: ".lake/_mcp".to_owned() },
        IsolatedAttempt::Making { check, content },
    )
}

/// Tries one snippet in a temporary file of its own, behind `base_code` and
/// indented by `indent`.
pub fn run_snippet_isolated(
    snippet: &str,
    base_code: &str,
    indent: &str,
    limit: Option<String>,
) -> (t: Turn<IsolatedAttempt, AttemptResult>)
    requires
        isolated_fits(snippet@, base_code@, indent@),
    ensures
        exists|id: Seq<char>|
            is_uuid(id) && #[trigger] begins(
                t,
                isolated_dialogue(
                    attempt_path(id),
                    snippet@,
                    base_code@,
                    indent@,
                    opt_text(limit),
                ),
            ),
{
    let id = fresh_id();
    run_snippet_as(id.as_str(), snippet, base_code, indent, limit)
}

// ---------------------------------------------------------------------------
// All snippets, one after the other, in the file itself
// ---------------------------------------------------------------------------

/// What a call of the tool comes to.
pub type AttemptsSaid = Result<MultiAttemptResultView, ErrorView>;

/// Snippets on their way through a file.
pub struct RunView {
    /// The file.
    pub path: Seq<char>,
    /// The line (from 1) at which the snippets are put.
    pub line: u32,
    /// The content of the file.
    pub content: Seq<char>,
    /// The text of that line.
    pub line_text: Seq<char>,
    /// The number of lines of the file.
    pub total_lines: nat,
    /// The column (from 0) at which the snippets are put.
    pub target_col: u32,
    /// The snippets.
    pub snippets: Seq<Seq<char>>,
}

/// After the file was opened again.
pub open spec fn reopened(res: AttemptsSaid) -> Waiting<AttemptsSaid> {
    |r: ReplyView| Dialogue::Finish(res)
}

/// After the file was put back for good.
pub open spec fn put_back(path: Seq<char>, res: AttemptsSaid) -> Waiting<AttemptsSaid> {
    |r: ReplyView| Dialogue::Ask(RequestView::ReopenFile { path }, reopened(res))
}

/// Puts the file back and opens it again, whatever came of the attempts.
pub open spec fn leave_file(
    path: Seq<char>,
    content: Seq<char>,
    res: AttemptsSaid,
) -> Dialogue<AttemptsSaid> {
    Dialogue::Ask(RequestView::ReplaceContent { path, content }, put_back(path, res))
}

/// The edit for snippet `i`.
pub open spec fn run_edit(run: RunView, i: nat) -> EditView {
    edit_of(run.line_text, run.target_col, run.snippets[i as int], run.total_lines, run.line)
}

/// After the file was put back for the next snippet.
pub open spec fn attempt_restored(
    run: RunView,
    i: nat,
    done: Seq<AttemptResultView>,
) -> Waiting<AttemptsSaid>
    decreases run.snippets.len() - i, 0nat,
{
    |r: ReplyView|
        if r is Done {
            if i < run.snippets.len() {
                attempts_from(run, i + 1, done)
            } else {
                leave_file(run.path, run.content, Ok(MultiAttemptResultView { items: done }))
            }
        } else {
            leave_file(
                run.path,
                run.content,
                Err(lsp_failure("update_file_content"@, r.trouble())),
            )
        }
}

/// Puts the file back after a snippet that came to something.
pub open spec fn attempt_checked(
    run: RunView,
    i: nat,
    done: Seq<AttemptResultView>,
) -> spec_fn(Result<AttemptResultView, ErrorView>) -> Dialogue<AttemptsSaid>
    decreases run.snippets.len() - i, 1nat,
{
    |res: Result<AttemptResultView, ErrorView>|
        match res {
            Ok(a) => Dialogue::Ask(
                RequestView::ReplaceContent { path: run.path, content: run.content },
                attempt_restored(run, i, done.push(a)),
            ),
            Err(e) => leave_file(run.path, run.content, Err(e)),
        }
}

/// After the edit for a snippet.
pub open spec fn attempt_edited(
    run: RunView,
    i: nat,
    done: Seq<AttemptResultView>,
) -> Waiting<AttemptsSaid>
    decreases run.snippets.len() - i, 2nat,
{
    |r: ReplyView|
        if r is Done {
            followed(
                check_dialogue(check_of(run.path, run.line, run_edit(run, i), None)),
                attempt_checked(run, i, done),
            )
        } else {
            leave_file(run.path, run.content, Err(lsp_failure("update_file"@, r.trouble())))
        }
}

/// Tries the snippets from number `i` on; `done` came of those before.
pub open spec fn attempts_from(
    run: RunView,
    i: nat,
    done: Seq<AttemptResultView>,
) -> Dialogue<AttemptsSaid>
    decreases run.snippets.len() - i, 3nat,
{
    if i < run.snippets.len() {
        Dialogue::Ask(
            RequestView::UpdateFile { path: run.path, change: run_edit(run, i).change },
            attempt_edited(run, i, done),
        )
    } else {
        leave_file(run.path, run.content, Ok(MultiAttemptResultView { items: done }))
    }
}

/// After the content came.
pub open spec fn lsp_read(
    path: Seq<char>,
    line: u32,
    snippets: Seq<Seq<char>>,
    column: Option<u32>,
) -> Waiting<AttemptsSaid> {
    |r: ReplyView|
        match r {
            ReplyView::Text(content) => {
                let lines = lines_of(content);
                if line == 0 || line > lines.len() {
                    Dialogue::Finish(
                        Err(ErrorView::LineOutOfRange { line: line as nat, total: lines.len() }),
                    )
                } else {
                    match column_of(lines[line - 1], column) {
                        Ok(col) => attempts_from(
                            RunView {
                                path,
                                line,
                                content,
                                line_text: lines[line - 1],
                                total_lines: lines.len(),
                                target_col: col as u32,
                                snippets,
                            },
                            0,
                            Seq::empty(),
                        ),
                        Err(e) => Dialogue::Finish(Err(e)),
                    }
                }
            },
            _ => Dialogue::Finish(Err(lsp_failure("get_file_content"@, r.trouble()))),
        }
}

/// After the file was opened.
pub open spec fn lsp_opened(
    path: Seq<char>,
    line: u32,
    snippets: Seq<Seq<char>>,
    column: Option<u32>,
) -> Waiting<AttemptsSaid> {
    |r: ReplyView|
        if r is Done {
            Dialogue::Ask(
                RequestView::FileContent { path },
                lsp_read(path, line, snippets, column),
            )
        } else {
            Dialogue::Finish(Err(lsp_failure("open_file"@, r.trouble())))
        }
}

/// Tries the snippets one after the other in the file itself. Each is an edit
/// of the file as it was; in the end the file is put back and opened again.
pub open spec fn lsp_dialogue(
    path: Seq<char>,
    line: u32,
    snippets: Seq<Seq<char>>,
    column: Option<u32>,
) -> Dialogue<AttemptsSaid> {
    Dialogue::Ask(RequestView::OpenFile { path }, lsp_opened(path, line, snippets, column))
}

/// Whether all snippets can be put into a file with this content.
pub open spec fn content_fits(
    content: Seq<char>,
    line: u32,
    snippets: Seq<Seq<char>>,
    column: Option<u32>,
) -> bool {
    let lines = lines_of(content);
    1 <= line <= lines.len() ==> match column_of(lines[line - 1], column) {
        Ok(col) => forall|i: int|
            0 <= i < snippets.len() ==> fits(
                lines[line - 1],
                col as u32,
                #[trigger] snippets[i],
                line,
            ),
        Err(_) => true,
    }
}

/// Snippets on their way through a file.
pub struct Run {
    pub path: String,
    pub line: u32,
    pub content: String,
    pub line_text: String,
    pub total_lines: usize,
    pub target_col: u32,
    pub snippets: Vec<String>,
    /// The number of the snippet that is tried.
    pub index: usize,
    /// What came of those before.
    pub done: Vec<AttemptResult>,
}

impl View for Run {
    type V = RunView;

    open spec fn view(&self) -> RunView {
        RunView {
            path: self.path@,
            line: self.line,
            content: self.content@,
            line_text: self.line_text@,
            total_lines: self.total_lines as nat,
            target_col: self.target_col,
            snippets: texts(self.snippets@),
        }
    }
}

impl Run {
    /// Whether each snippet can be put into the file.
    pub open spec fn ready(self) -> bool {
        forall|i: int|
            0 <= i < self.snippets@.len() ==> fits(
                self.line_text@,
                self.target_col,
                #[trigger] self.snippets@[i]@,
                self.line,
            )
    }
}

/// All snippets at work, one after the other.
pub enum LspAttempts {
    /// Waits until the file is open.
    Opening { path: String, line: u32, snippets: Vec<String>, column: Option<u32> },
    /// Waits for the content.
    Reading { path: String, line: u32, snippets: Vec<String>, column: Option<u32> },
    /// Waits for the edit.
    Editing { run: Run, check: Check },
    /// Waits for the diagnostics or the goals.
    Checking { run: Run, check: Check },
    /// Waits until the file is put back for the next snippet.
    Restoring { run: Run },
    /// Waits until the file is put back for good.
    Leaving { path: String, res: Result<MultiAttemptResult, LeanToolError> },
    /// Waits until the file is open again.
    Reopening { res: Result<MultiAttemptResult, LeanToolError> },
}

impl Waits for LspAttempts {
    type Out = Result<MultiAttemptResult, LeanToolError>;

    type Said = AttemptsSaid;

    open spec fn said(o: Self::Out) -> AttemptsSaid {
        result_view(o)
    }

    open spec fn valid(self) -> bool {
        match self {
            LspAttempts::Editing { run, check } => run.ready() && run.index < run.snippets@.len()
                && check.messages is None && check@ == check_of(
                run@.path,
                run.line,
                run_edit(run@, run.index as nat),
                None,
            ),
            LspAttempts::Checking { run, check } => run.ready() && run.index < run.snippets@.len(),
            LspAttempts::Restoring { run } => run.ready() && run.index < run.snippets@.len(),
            _ => true,
        }
    }

    open spec fn waiting(self) -> Waiting<AttemptsSaid> {
        match self {
            LspAttempts::Opening { path, line, snippets, column } => lsp_opened(
                path@,
                line,
                texts(snippets@),
                column,
            ),
            LspAttempts::Reading { path, line, snippets, column } => lsp_read(
                path@,
                line,
                texts(snippets@),
                column,
            ),
            LspAttempts::Editing { run, check } => attempt_edited(
                run@,
                run.index as nat,
                all_views(run.done@),
            ),
            LspAttempts::Checking { run, check } => waiting_first(
                check.waiting(),
                attempt_checked(run@, run.index as nat, all_views(run.done@)),
            ),
            LspAttempts::Restoring { run } => attempt_restored(
                run@,
                run.index as nat,
                all_views(run.done@),
            ),
            LspAttempts::Leaving { path, res } => put_back(path@, result_view(res)),
            LspAttempts::Reopening { res } => reopened(result_view(res)),
        }
    }

    open spec fn admits(self, r: ReplyView) -> bool {
        match (self, r) {
            (LspAttempts::Reading { line, snippets, column, .. }, ReplyView::Text(content)) =>
                content_fits(content, line, texts(snippets@), column),
            _ => true,
        }
    }
}

impl LspAttempts {
    /// Puts the file back.
    fn leave(path: String, content: String, res: Result<MultiAttemptResult, LeanToolError>) -> (t:
        Turn<LspAttempts, Result<MultiAttemptResult, LeanToolError>>)
        ensures
            begins(t, leave_file(path@, content@, result_view(res))),
    {
        let q = Request::ReplaceContent { path: path.clone(), content };
        Turn::Ask(q, LspAttempts::Leaving { path, res })
    }

    /// Goes on with the snippet that is next.
    fn next(run: Run) -> (t: Turn<LspAttempts, Result<MultiAttemptResult, LeanToolError>>)
        requires
            run.ready(),
            run.index <= run.snippets@.len(),
        ensures
            begins(t, attempts_from(run@, run.index as nat, all_views(run.done@))),
    {
        if run.index < run.snippets.len() {
            let (snippet, change, goal_line, goal_column) = prepare_edit(
                run.line_text.as_str(),
                run.target_col,
                run.snippets[run.index].as_str(),
                run.total_lines,
                run.line,
            );
            let check = Check {
                path: run.path.clone(),
                snippet,
                first_line: run.line - 1,
                last_line: goal_line,
                goal_line,
                goal_column,
                limit: None,
                messages: None,
            };
            proof {
                assert(texts(run.snippets@)[run.index as int] == run.snippets@[run.index as int]@);
            }
            Turn::Ask(
                Request::UpdateFile { path: run.path.clone(), change },
                LspAttempts::Editing { run, check },
            )
        } else {
            LspAttempts::leave(run.path, run.content, Ok(MultiAttemptResult { items: run.done }))
        }
    }

    /// Goes on with the look at the snippet.
    fn checked(run: Run, t: Turn<Check, Result<AttemptResult, LeanToolError>>) -> (r: Turn<
        LspAttempts,
        Result<MultiAttemptResult, LeanToolError>,
    >)
        requires
            run.ready(),
            run.index < run.snippets@.len(),
        ensures
            forall|d: Dialogue<Result<AttemptResultView, ErrorView>>| #[trigger]
                begins(t, d) ==> begins(
                    r,
                    followed(d, attempt_checked(run@, run.index as nat, all_views(run.done@))),
                ),
    {
        match t {
            Turn::Ask(q, check) => {
                proof {
                    lemma_followed(
                        q@,
                        check.waiting(),
                        attempt_checked(run@, run.index as nat, all_views(run.done@)),
                    );
                }
                Turn::Ask(q, LspAttempts::Checking { run, check })
            },
            Turn::Done(Ok(a)) => {
                let mut run = run;
                let ghost before = run.done@;
                run.done.push(a);
                proof {
                    lemma_views_push(before, a);
                }
                let q = Request::ReplaceContent {
                    path: run.path.clone(),
                    content: run.content.clone(),
                };
                Turn::Ask(q, LspAttempts::Restoring { run })
            },
            Turn::Done(Err(e)) => LspAttempts::leave(run.path, run.content, Err(e)),
        }
    }
}

/// Whether all snippets can be put into a file with this content.
pub fn snippets_fit(content: &str, line: u32, snippets: &[String], column: Option<u32>) -> (r: bool)
    ensures
        r == content_fits(content@, line, texts(snippets@), column),
{
    let lines = lines(content);
    if line == 0 || line as usize > lines.len() {
        return true;
    }
    let line_text = lines[(line - 1) as usize].as_str();
    proof {
        assert(texts(lines@)[line - 1] == lines@[line - 1]@);
    }
    match resolve_column(line_text, column) {
        Ok(col) => {
            for i in 0..snippets.len()
                invariant
                    forall|j: int|
                        0 <= j < i ==> fits(line_text@, col, #[trigger] texts(snippets@)[j], line),
                    1 <= line <= lines_of(content@).len(),
                    line_text@ == lines_of(content@)[line - 1],
                    column_of(line_text@, column) == Ok::<int, ErrorView>(col as int),
            {
                proof {
                    assert(texts(snippets@)[i as int] == snippets@[i as int]@);
                }
                if !edit_fits(line_text, col, snippets[i].as_str(), line) {
                    return false;
                }
            }
            true
        },
        Err(_) => true,
    }
}

impl Call for LspAttempts {
    fn accepts(&self, reply: &Reply) -> (r: bool) {
        match (self, reply) {
            (LspAttempts::Reading { line, snippets, column, .. }, Reply::Text(content)) => {
                snippets_fit(content.as_str(), *line, snippets, *column)
            },
            _ => true,
        }
    }

    fn resume(self, reply: Reply) -> (t: Turn<Self, Self::Out>) {
        match self {
            LspAttempts::Opening { path, line, snippets, column } => match reply.done() {
                Ok(_) => Turn::Ask(
                    Request::FileContent { path: path.clone() },
                    LspAttempts::Reading { path, line, snippets, column },
                ),
                Err(m) => Turn::Done(Err(lsp_error("open_file", m))),
            },
            LspAttempts::Reading { path, line, snippets, column } => match reply.text() {
                Ok(content) => {
                    let lines = lines(content.as_str());
                    if line == 0 || line as usize > lines.len() {
                        return Turn::Done(
                            Err(LeanToolError::LineOutOfRange { line, total: lines.len() }),
                        );
                    }
                    let line_text = lines[(line - 1) as usize].clone();
                    proof {
                        assert(texts(lines@)[line - 1] == lines@[line - 1]@);
                        assert forall|i: int| 0 <= i < snippets@.len() implies texts(
                            snippets@,
                        )[i] == #[trigger] snippets@[i]@ by {}
                    }
                    match resolve_column(line_text.as_str(), column) {
                        Ok(target_col) => {
                            let done: Vec<AttemptResult> = Vec::new();
                            proof {
                                assert(all_views(done@) =~= Seq::empty());
                            }
                            LspAttempts::next(
                                Run {
                                    path,
                                    line,
                                    content,
                                    line_text,
                                    total_lines: lines.len(),
                                    target_col,
                                    snippets,
                                    index: 0,
                                    done,
                                },
                            )
                        },
                        Err(e) => Turn::Done(Err(e)),
                    }
                },
                Err(m) => Turn::Done(Err(lsp_error("get_file_content", m))),
            },
            LspAttempts::Editing { run, check } => match reply.done() {
                Ok(_) => LspAttempts::checked(run, check.begin()),
                Err(m) => LspAttempts::leave(
                    run.path,
                    run.content,
                    Err(lsp_error("update_file", m)),
                ),
            },
            LspAttempts::Checking { run, check } => LspAttempts::checked(run, check.resume(reply)),
            LspAttempts::Restoring { run } => match reply.done() {
                Ok(_) => {
                    let mut run = run;
                    assert(run.index < run.snippets.len());
                    run.index = run.index + 1;
                    LspAttempts::next(run)
                },
                Err(m) => LspAttempts::leave(
                    run.path,
                    run.content,
                    Err(lsp_error("update_file_content", m)),
                ),
            },
            LspAttempts::Leaving { path, res } => Turn::Ask(
                Request::ReopenFile { path },
                LspAttempts::Reopening { res },
            ),
            LspAttempts::Reopening { res } => Turn::Done(res),
        }
    }
}

/// Tries the snippets one after the other in the file itself. `line` and
/// `column` count from 1.
pub fn lsp_path(file_path: &str, line: u32, snippets: Vec<String>, column: Option<u32>) -> (t: Turn<
    LspAttempts,
    Result<MultiAttemptResult, LeanToolError>,
>)
    ensures
        begins(t, lsp_dialogue(file_path@, line, texts(snippets@), column)),
{
    let path = file_path.to_owned();
    Turn::Ask(
        Request::OpenFile { path: path.clone() },
        LspAttempts::Opening { path, line, snippets, column },
    )
}

// ---------------------------------------------------------------------------
// All snippets in the REPL
// ---------------------------------------------------------------------------

/// The message that a message of the REPL stands for.
pub open spec fn repl_message(m: JsonView) -> DiagnosticMessageView {
    DiagnosticMessageView {
        severity: match text_member(m, "severity"@) {
            Some(s) => s,
            None => "info"@,
        },
        message: text_or_empty(text_member(m, "data"@)),
        line: int_at(m, "pos"@, "line"@, 0) as i64,
        column: int_at(m, "pos"@, "column"@, 0) as i64,
    }
}

/// The messages of a run: those of the REPL, and the error where there is one.
pub open spec fn repl_messages(run: SnippetRunView) -> Seq<DiagnosticMessageView> {
    let ms = run.messages.map_values(|m: JsonView| repl_message(m));
    match run.error {
        Some(e) => ms.push(placeless("error"@, e)),
        None => ms,
    }
}

/// The attempts that the runs stand for, one for each snippet that was run.
pub open spec fn repl_attempts(
    snippets: Seq<Seq<char>>,
    runs: Seq<SnippetRunView>,
) -> Seq<AttemptResultView> {
    Seq::new(
        if snippets.len() <= runs.len() {
            snippets.len()
        } else {
            runs.len()
        },
        |i: int|
            AttemptResultView {
                snippet: snippet_text(snippets[i]),
                goals: runs[i].goals,
                diagnostics: repl_messages(runs[i]),
                timed_out: false,
            },
    )
}

/// What the REPL path comes to; nothing where it does not apply.
pub type ReplSaid = Result<Option<MultiAttemptResultView>, ErrorView>;

/// After the snippets were run.
pub open spec fn repl_ran(snippets: Seq<Seq<char>>) -> Waiting<ReplSaid> {
    |r: ReplyView|
        Dialogue::Finish(
            Ok(
                Some(
                    MultiAttemptResultView {
                        items: repl_attempts(
                            snippets,
                            match r {
                                ReplyView::Snippets(runs) => runs,
                                _ => Seq::empty(),
                            },
                        ),
                    },
                ),
            ),
        )
}

/// After the content came.
pub open spec fn repl_read(line: u32, snippets: Seq<Seq<char>>) -> Waiting<ReplSaid> {
    |r: ReplyView|
        match r {
            ReplyView::Text(content) => {
                let lines = lines_of(content);
                if line == 0 || line > lines.len() {
                    Dialogue::Finish(
                        Err(ErrorView::LineOutOfRange { line: line as nat, total: lines.len() }),
                    )
                } else {
                    Dialogue::Ask(
                        RequestView::RunSnippets {
                            base_code: join_of(lines.take(line - 1), "\n"@),
                            snippets,
                        },
                        repl_ran(snippets),
                    )
                }
            },
            _ => Dialogue::Finish(Err(lsp_failure("get_file_content"@, r.trouble()))),
        }
}

/// Whether the REPL can run the snippets: there is one, no column is given, and
/// each snippet is one line.
pub open spec fn repl_applies(
    has_repl: bool,
    snippets: Seq<Seq<char>>,
    column: Option<u32>,
) -> bool {
    &&& column is None
    &&& forall|i: int| 0 <= i < snippets.len() ==> !(#[trigger] snippets[i]).contains('\n')
    &&& has_repl
}

/// Runs the snippets in the REPL behind the code before the line.
pub open spec fn repl_dialogue(
    has_repl: bool,
    path: Seq<char>,
    line: u32,
    snippets: Seq<Seq<char>>,
    column: Option<u32>,
) -> Dialogue<ReplSaid> {
    if repl_applies(has_repl, snippets, column) {
        Dialogue::Ask(RequestView::FileContent { path }, repl_read(line, snippets))
    } else {
        Dialogue::Finish(Ok(None))
    }
}

/// The snippets at work in the REPL.
pub enum ReplAttempts {
    /// Waits for the content.
    Reading { line: u32, snippets: Vec<String> },
    /// Waits for the runs.
    Running { snippets: Vec<String> },
}

impl Waits for ReplAttempts {
    type Out = Result<Option<MultiAttemptResult>, LeanToolError>;

    type Said = ReplSaid;

    open spec fn said(o: Self::Out) -> ReplSaid {
        match o {
            Ok(m) => Ok(opt_of(m)),
            Err(e) => Err(e@),
        }
    }

    open spec fn valid(self) -> bool {
        true
    }

    open spec fn waiting(self) -> Waiting<ReplSaid> {
        match self {
            ReplAttempts::Reading { line, snippets } => repl_read(line, texts(snippets@)),
            ReplAttempts::Running { snippets } => repl_ran(texts(snippets@)),
        }
    }

    open spec fn admits(self, r: ReplyView) -> bool {
        true
    }
}

/// The messages of a run.
fn run_messages(run: &SnippetRun) -> (r: Vec<DiagnosticMessage>)
    ensures
        all_views(r@) == repl_messages(run@),
{
    let mut out: Vec<DiagnosticMessage> = Vec::new();
    let ghost f = |m: JsonView| repl_message(m);
    let ghost ms = views(run.messages@);
    proof {
        assert(all_views(out@) =~= ms.take(0).map_values(f));
    }
    for i in 0..run.messages.len()
        invariant
            f == (|m: JsonView| repl_message(m)),
            ms == views(run.messages@),
            all_views(out@) == ms.take(i as int).map_values(f),
    {
        let m = &run.messages[i];
        let ghost before = out@;
        proof {
            lemma_map_next(ms, f, i as int);
            assert(ms[i as int] == m@);
        }
        let severity = match m.text_member("severity") {
            Some(s) => s.to_owned(),
            None => "info".to_owned(),
        };
        let message = match m.text_member("data") {
            Some(s) => s.to_owned(),
            None => String::new(),
        };
        out.push(
            DiagnosticMessage {
                severity,
                message,
                line: m.int_at("pos", "line"),
                column: m.int_at("pos", "column"),
            },
        );
        proof {
            lemma_views_push(before, out@.last());
        }
    }
    proof {
        lemma_take_all(ms);
    }
    if let Some(e) = &run.error {
        let ghost before = out@;
        out.push(
            DiagnosticMessage {
                severity: "error".to_owned(),
                message: e.clone(),
                line: 0,
                column: 0,
            },
        );
        proof {
            lemma_views_push(before, out@.last());
        }
    }
    out
}

/// The attempts that the runs stand for.
pub fn attempts_of_runs(snippets: &[String], runs: &[SnippetRun]) -> (r: Vec<AttemptResult>)
    ensures
        all_views(r@) == repl_attempts(texts(snippets@), all_views(runs@)),
{
    let ghost all = repl_attempts(texts(snippets@), all_views(runs@));
    let n: usize = if snippets.len() <= runs.len() {
        snippets.len()
    } else {
        runs.len()
    };
    let mut items: Vec<AttemptResult> = Vec::new();
    for i in 0..n
        invariant
            n <= snippets@.len(),
            n <= runs@.len(),
            n == all.len(),
            all == repl_attempts(texts(snippets@), all_views(runs@)),
            all_views(items@) == all.take(i as int),
    {
        let ghost before = items@;
        items.push(
            AttemptResult {
                snippet: text_of(trim_end_char(&chars_of(snippets[i].as_str()), '\n')),
                goals: copy_texts(&runs[i].goals),
                diagnostics: run_messages(&runs[i]),
                timed_out: false,
            },
        );
        proof {
            lemma_views_push(before, items@.last());
            assert(items@.last()@ == all[i as int]);
            assert(all.take(i + 1) =~= all.take(i as int).push(all[i as int]));
        }
    }
    proof {
        lemma_take_all(all);
    }
    items
}

impl Call for ReplAttempts {
    fn accepts(&self, reply: &Reply) -> (r: bool) {
        true
    }

    fn resume(self, reply: Reply) -> (t: Turn<Self, Self::Out>) {
        match self {
            ReplAttempts::Reading { line, snippets } => match reply.text() {
                Ok(content) => {
                    let lines = lines(content.as_str());
                    if line == 0 || line as usize > lines.len() {
                        return Turn::Done(
                            Err(LeanToolError::LineOutOfRange { line, total: lines.len() }),
                        );
                    }
                    let base_code = code_before(&lines, line);
                    Turn::Ask(
                        Request::RunSnippets { base_code, snippets: copy_texts(&snippets) },
                        ReplAttempts::Running { snippets },
                    )
                },
                Err(m) => Turn::Done(Err(lsp_error("get_file_content", m))),
            },
            ReplAttempts::Running { snippets } => {
                let items = match reply {
                    Reply::Snippets(runs) => attempts_of_runs(&snippets, &runs),
                    _ => {
                        let none: Vec<AttemptResult> = Vec::new();
                        proof {
                            assert(all_views(none@) =~= repl_attempts(
                                texts(snippets@),
                                Seq::empty(),
                            ));
                        }
                        none
                    },
                };
                Turn::Done(Ok(Some(MultiAttemptResult { items })))
            },
        }
    }
}

/// The code before line `line` (from 1).
fn code_before(lines: &[String], line: u32) -> (r: String)
    requires
        1 <= line <= lines@.len(),
    ensures
        r@ == join_of(texts(lines@).take(line - 1), "\n"@),
{
    let head = slice_subrange(lines, 0, (line - 1) as usize);
    proof {
        assert(texts(head@) =~= texts(lines@).take(line - 1));
    }
    join(head, "\n")
}

/// Whether each snippet is one line.
fn single_lines(snippets: &[String]) -> (r: bool)
    ensures
        r == (forall|i: int|
            0 <= i < snippets@.len() ==> !(#[trigger] texts(snippets@)[i]).contains('\n')),
{
    for i in 0..snippets.len()
        invariant
            forall|j: int| 0 <= j < i ==> !(#[trigger] texts(snippets@)[j]).contains('\n'),
    {
        proof {
            assert(texts(snippets@)[i as int] == snippets@[i as int]@);
        }
        if char_in('\n', &chars_of(snippets[i].as_str())) {
            return false;
        }
    }
    true
}

/// Runs the snippets in the REPL, where that applies.
pub fn try_repl_path(
    has_repl: bool,
    file_path: &str,
    line: u32,
    snippets: &[String],
    column: Option<u32>,
) -> (t: Turn<ReplAttempts, Result<Option<MultiAttemptResult>, LeanToolError>>)
    ensures
        begins(t, repl_dialogue(has_repl, file_path@, line, texts(snippets@), column)),
{
    if column.is_some() || !single_lines(snippets) || !has_repl {
        return Turn::Done(Ok(None));
    }
    Turn::Ask(
        Request::FileContent { path: file_path.to_owned() },
        ReplAttempts::Reading { line, snippets: copy_texts(snippets) },
    )
}

// ---------------------------------------------------------------------------
// All snippets at once, each in a file of its own
// ---------------------------------------------------------------------------

/// What each snippet is tried behind.
#[derive(Debug, PartialEq, Eq)]
pub struct ParallelPlan {
    /// The code before the line.
    pub base_code: String,
    /// The indentation of the line.
    pub indent: String,
    /// The snippets, each to be tried with [`run_snippet_isolated`]; what comes
    /// of them is listed in their order.
    pub snippets: Vec<String>,
}

/// What a [`ParallelPlan`] says.
pub struct ParallelPlanView {
    pub base_code: Seq<char>,
    pub indent: Seq<char>,
    pub snippets: Seq<Seq<char>>,
}

impl View for ParallelPlan {
    type V = ParallelPlanView;

    open spec fn view(&self) -> ParallelPlanView {
        ParallelPlanView {
            base_code: self.base_code@,
            indent: self.indent@,
            snippets: texts(self.snippets@),
        }
    }
}

/// What the parallel path comes to.
pub type PlanSaid = Result<ParallelPlanView, ErrorView>;

/// After the content came.
pub open spec fn parallel_read(line: u32, snippets: Seq<Seq<char>>) -> Waiting<PlanSaid> {
    |r: ReplyView|
        Dialogue::Finish(
            match r {
                ReplyView::Text(content) => {
                    let lines = lines_of(content);
                    if line == 0 || line > lines.len() {
                        Err(ErrorView::LineOutOfRange { line: line as nat, total: lines.len() })
                    } else {
                        Ok(
                            ParallelPlanView {
                                base_code: join_of(lines.take(line - 1), "\n"@),
                                indent: indent_of(lines[line - 1]),
                                snippets,
                            },
                        )
                    }
                },
                _ => Err(lsp_failure("get_file_content"@, r.trouble())),
            },
        )
}

/// After the file was opened.
pub open spec fn parallel_opened(
    path: Seq<char>,
    line: u32,
    snippets: Seq<Seq<char>>,
) -> Waiting<PlanSaid> {
    |r: ReplyView|
        if r is Done {
            Dialogue::Ask(RequestView::FileContent { path }, parallel_read(line, snippets))
        } else {
            Dialogue::Finish(Err(lsp_failure("open_file"@, r.trouble())))
        }
}

/// Finds out what the snippets are tried behind.
pub open spec fn parallel_dialogue(
    path: Seq<char>,
    line: u32,
    snippets: Seq<Seq<char>>,
) -> Dialogue<PlanSaid> {
    if snippets.len() == 0 {
        Dialogue::Finish(
            Ok(ParallelPlanView { base_code: Seq::empty(), indent: Seq::empty(), snippets }),
        )
    } else {
        Dialogue::Ask(RequestView::OpenFile { path }, parallel_opened(path, line, snippets))
    }
}

/// The parallel path at work.
pub enum ParallelAttempts {
    /// Waits until the file is open.
    Opening { path: String, line: u32, snippets: Vec<String> },
    /// Waits for the content.
    Reading { line: u32, snippets: Vec<String> },
}

impl Waits for ParallelAttempts {
    type Out = Result<ParallelPlan, LeanToolError>;

    type Said = PlanSaid;

    open spec fn said(o: Self::Out) -> PlanSaid {
        result_view(o)
    }

    open spec fn valid(self) -> bool {
        true
    }

    open spec fn waiting(self) -> Waiting<PlanSaid> {
        match self {
            ParallelAttempts::Opening { path, line, snippets } => parallel_opened(
                path@,
                line,
                texts(snippets@),
            ),
            ParallelAttempts::Reading { line, snippets } => parallel_read(line, texts(snippets@)),
        }
    }

    open spec fn admits(self, r: ReplyView) -> bool {
        true
    }
}

impl Call for ParallelAttempts {
    fn accepts(&self, reply: &Reply) -> (r: bool) {
        true
    }

    fn resume(self, reply: Reply) -> (t: Turn<Self, Self::Out>) {
        match self {
            ParallelAttempts::Opening { path, line, snippets } => match reply.done() {
                Ok(_) => Turn::Ask(
                    Request::FileContent { path },
                    ParallelAttempts::Reading { line, snippets },
                ),
                Err(m) => Turn::Done(Err(lsp_error("open_file", m))),
            },
            ParallelAttempts::Reading { line, snippets } => match reply.text() {
                Ok(content) => {
                    let lines = lines(content.as_str());
                    if line == 0 || line as usize > lines.len() {
                        return Turn::Done(
                            Err(LeanToolError::LineOutOfRange { line, total: lines.len() }),
                        );
                    }
                    proof {
                        assert(texts(lines@)[line - 1] == lines@[line - 1]@);
                    }
                    let base_code = code_before(&lines, line);
                    let indent = leading_space(lines[(line - 1) as usize].as_str());
                    Turn::Done(Ok(ParallelPlan { base_code, indent, snippets }))
                },
                Err(m) => Turn::Done(Err(lsp_error("get_file_content", m))),
            },
        }
    }
}

/// Finds out what the snippets are tried behind, each in a file of its own.
/// `line` counts from 1.
pub fn handle_multi_attempt_parallel(file_path: &str, line: u32, snippets: Vec<String>) -> (t: Turn<
    ParallelAttempts,
    Result<ParallelPlan, LeanToolError>,
>)
    ensures
        begins(t, parallel_dialogue(file_path@, line, texts(snippets@))),
{
    if snippets.len() == 0 {
        return Turn::Done(
            Ok(ParallelPlan { base_code: String::new(), indent: String::new(), snippets }),
        );
    }
    let path = file_path.to_owned();
    Turn::Ask(
        Request::OpenFile { path: path.clone() },
        ParallelAttempts::Opening { path, line, snippets },
    )
}

// ---------------------------------------------------------------------------
// The tool
// ---------------------------------------------------------------------------

/// What a call of the tool comes to: the attempts, or what is still to be tried
/// at once.
#[derive(Debug, PartialEq, Eq)]
pub enum Attempts {
    Done(MultiAttemptResult),
    Parallel(ParallelPlan),
}

/// What [`Attempts`] say.
pub enum AttemptsView {
    Done(MultiAttemptResultView),
    Parallel(ParallelPlanView),
}

impl View for Attempts {
    type V = AttemptsView;

    open spec fn view(&self) -> AttemptsView {
        match *self {
            Attempts::Done(m) => AttemptsView::Done(m@),
            Attempts::Parallel(p) => AttemptsView::Parallel(p@),
        }
    }
}

/// What a call of the tool comes to.
pub type ToolSaid = Result<AttemptsView, ErrorView>;

/// The outcome of the parallel path as that of the tool.
pub open spec fn plan_outcome() -> spec_fn(PlanSaid) -> Dialogue<ToolSaid> {
    |res: PlanSaid|
        Dialogue::Finish(
            match res {
                Ok(p) => Ok(AttemptsView::Parallel(p)),
                Err(e) => Err(e),
            },
        )
}

/// The outcome of the sequential path as that of the tool.
pub open spec fn lsp_outcome() -> spec_fn(AttemptsSaid) -> Dialogue<ToolSaid> {
    |res: AttemptsSaid|
        Dialogue::Finish(
            match res {
                Ok(m) => Ok(AttemptsView::Done(m)),
                Err(e) => Err(e),
            },
        )
}

/// What follows the REPL path: nothing more where it applied, else the
/// sequential path.
pub open spec fn repl_outcome(
    path: Seq<char>,
    line: u32,
    snippets: Seq<Seq<char>>,
    column: Option<u32>,
) -> spec_fn(ReplSaid) -> Dialogue<ToolSaid> {
    |res: ReplSaid|
        match res {
            Ok(Some(m)) => Dialogue::Finish(Ok(AttemptsView::Done(m))),
            Ok(None) => followed(lsp_dialogue(path, line, snippets, column), lsp_outcome()),
            Err(e) => Dialogue::Finish(Err(e)),
        }
}

/// The whole tool.
pub open spec fn multi_attempt_dialogue(
    has_repl: bool,
    path: Seq<char>,
    line: u32,
    snippets: Seq<Seq<char>>,
    column: Option<u32>,
    parallel: Option<bool>,
) -> Dialogue<ToolSaid> {
    if parallel == Some(true) {
        followed(parallel_dialogue(path, line, snippets), plan_outcome())
    } else {
        followed(
            repl_dialogue(has_repl, path, line, snippets, column),
            repl_outcome(path, line, snippets, column),
        )
    }
}

/// The tool at work.
pub enum MultiAttempt {
    /// On the parallel path.
    Parallel { plan: ParallelAttempts },
    /// On the REPL path.
    Repl {
        runs: ReplAttempts,
        path: String,
        line: u32,
        snippets: Vec<String>,
        column: Option<u32>,
    },
    /// On the sequential path.
    Lsp { attempts: LspAttempts },
}

impl Waits for MultiAttempt {
    type Out = Result<Attempts, LeanToolError>;

    type Said = ToolSaid;

    open spec fn said(o: Self::Out) -> ToolSaid {
        result_view(o)
    }

    open spec fn valid(self) -> bool {
        match self {
            MultiAttempt::Parallel { plan } => plan.valid(),
            MultiAttempt::Repl { runs, .. } => runs.valid(),
            MultiAttempt::Lsp { attempts } => attempts.valid(),
        }
    }

    open spec fn waiting(self) -> Waiting<ToolSaid> {
        match self {
            MultiAttempt::Parallel { plan } => waiting_first(plan.waiting(), plan_outcome()),
            MultiAttempt::Repl { runs, path, line, snippets, column } => waiting_first(
                runs.waiting(),
                repl_outcome(path@, line, texts(snippets@), column),
            ),
            MultiAttempt::Lsp { attempts } => waiting_first(attempts.waiting(), lsp_outcome()),
        }
    }

    open spec fn admits(self, r: ReplyView) -> bool {
        match self {
            MultiAttempt::Lsp { attempts } => attempts.admits(r),
            _ => true,
        }
    }
}

impl MultiAttempt {
    /// Goes on with the parallel path.
    fn parallel(t: Turn<ParallelAttempts, Result<ParallelPlan, LeanToolError>>) -> (r: Turn<
        MultiAttempt,
        Result<Attempts, LeanToolError>,
    >)
        ensures
            forall|d: Dialogue<PlanSaid>| #[trigger]
                begins(t, d) ==> begins(r, followed(d, plan_outcome())),
    {
        match t {
            Turn::Ask(q, call) => {
                proof {
                    lemma_followed(q@, call.waiting(), plan_outcome());
                }
                Turn::Ask(q, MultiAttempt::Parallel { plan: call })
            },
            Turn::Done(Ok(p)) => Turn::Done(Ok(Attempts::Parallel(p))),
            Turn::Done(Err(e)) => Turn::Done(Err(e)),
        }
    }

    /// Goes on with the sequential path.
    fn lsp(t: Turn<LspAttempts, Result<MultiAttemptResult, LeanToolError>>) -> (r: Turn<
        MultiAttempt,
        Result<Attempts, LeanToolError>,
    >)
        ensures
            forall|d: Dialogue<AttemptsSaid>| #[trigger]
                begins(t, d) ==> begins(r, followed(d, lsp_outcome())),
    {
        match t {
            Turn::Ask(q, call) => {
                proof {
                    lemma_followed(q@, call.waiting(), lsp_outcome());
                }
                Turn::Ask(q, MultiAttempt::Lsp { attempts: call })
            },
            Turn::Done(Ok(m)) => Turn::Done(Ok(Attempts::Done(m))),
            Turn::Done(Err(e)) => Turn::Done(Err(e)),
        }
    }

    /// Goes on with the REPL path.
    fn repl(
        t: Turn<ReplAttempts, Result<Option<MultiAttemptResult>, LeanToolError>>,
        path: String,
        line: u32,
        snippets: Vec<String>,
        column: Option<u32>,
    ) -> (r: Turn<MultiAttempt, Result<Attempts, LeanToolError>>)
        ensures
            forall|d: Dialogue<ReplSaid>| #[trigger]
                begins(t, d) ==> begins(
                    r,
                    followed(d, repl_outcome(path@, line, texts(snippets@), column)),
                ),
    {
        match t {
            Turn::Ask(q, call) => {
                proof {
                    lemma_followed(
                        q@,
                        call.waiting(),
                        repl_outcome(path@, line, texts(snippets@), column),
                    );
                }
                Turn::Ask(q, MultiAttempt::Repl { runs: call, path, line, snippets, column })
            },
            Turn::Done(Ok(Some(m))) => Turn::Done(Ok(Attempts::Done(m))),
            Turn::Done(Ok(None)) => MultiAttempt::lsp(
                lsp_path(path.as_str(), line, snippets, column),
            ),
            Turn::Done(Err(e)) => Turn::Done(Err(e)),
        }
    }
}

impl Call for MultiAttempt {
    fn accepts(&self, reply: &Reply) -> (r: bool) {
        match self {
            MultiAttempt::Lsp { attempts } => attempts.accepts(reply),
            _ => true,
        }
    }

    fn resume(self, reply: Reply) -> (t: Turn<Self, Self::Out>) {
        match self {
            MultiAttempt::Parallel { plan } => MultiAttempt::parallel(plan.resume(reply)),
            MultiAttempt::Repl { runs, path, line, snippets, column } => MultiAttempt::repl(
                runs.resume(reply),
                path,
                line,
                snippets,
                column,
            ),
            MultiAttempt::Lsp { attempts } => MultiAttempt::lsp(attempts.resume(reply)),
        }
    }
}

/// Tries several tactics at one place of a file. `line` and `column` count from
/// 1. With `parallel` each is tried in a file of its own; else the REPL is used
/// where it applies, and the file itself where not.
pub fn handle_multi_attempt(
    has_repl: bool,
    file_path: &str,
    line: u32,
    snippets: Vec<String>,
    column: Option<u32>,
    parallel: Option<bool>,
) -> (t: Turn<MultiAttempt, Result<Attempts, LeanToolError>>)
    ensures
        begins(
            t,
            multi_attempt_dialogue(
                has_repl,
                file_path@,
                line,
                texts(snippets@),
                column,
                parallel,
            ),
        ),
{
    if let Some(true) = parallel {
        return MultiAttempt::parallel(handle_multi_attempt_parallel(file_path, line, snippets));
    }
    let t = try_repl_path(has_repl, file_path, line, &snippets, column);
    MultiAttempt::repl(t, file_path.to_owned(), line, snippets, column)
}

/// The file of an attempt lies below the directory for such files and is its own.
pub proof fn lemma_attempt_files_apart(a: Seq<char>, b: Seq<char>)
    ensures
        starts_with_of(attempt_path(a), ".lake/_mcp/_mcp_attempt_"@),
        ends_with_of(attempt_path(a), ".lean"@),
        attempt_path(a) == attempt_path(b) ==> a == b,
{
    reveal_strlit(".lake/_mcp/_mcp_attempt_");
    reveal_strlit(".lean");
    assert(".lake/_mcp/_mcp_attempt_"@.len() == 24 && ".lean"@.len() == 5);
    assert(attempt_path(a).take(24) =~= ".lake/_mcp/_mcp_attempt_"@);
    assert(attempt_path(a).skip(attempt_path(a).len() - 5) =~= ".lean"@);
    assert(attempt_path(a).subrange(24, attempt_path(a).len() - 5) =~= a);
    assert(attempt_path(b).subrange(24, attempt_path(b).len() - 5) =~= b);
}

} // verus!
