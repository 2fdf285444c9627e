//! `lean_hover_info`: what is known of the symbol at a place of a file.
use crate::error::{result_view, ErrorView, LeanToolError};
use crate::json::{
    int_at, int_member, items_member, nat_or, opt_view, text_member, text_or_empty, uint_at, views,
    Json, JsonView,
};
use crate::lists::{lemma_filter_map_next, lemma_filter_next, lemma_take_all, lemma_views_push};
use crate::models::{all_views, DiagnosticMessage, DiagnosticMessageView, HoverInfo, HoverInfoView};
use crate::position::{from_one, full_range, full_range_of, one_based, prior_number, prior_of};
use crate::protocol::{
    begins, followed, lemma_followed, lsp_error, lsp_failure, nth_text, text_at, waiting_first,
    Call, Dialogue, Reply, ReplyView, Request, RequestView, Turn, Waiting, Waits,
};
use crate::text::{
    byte_len, chars_bytes, chars_of, contains_of, find_of, is_space, join, join_of,
    lemma_find_contains, lemma_first_from, lemma_join_split, lemma_replace_first,
    lemma_replace_none, lemma_split_concat, lemma_split_join, lemma_split_pieces, lemma_trim_end,
    lemma_trim_start, occurs_at, replace, replace_of, split, split_of, starts_with_of, text_of,
    texts, trim, trim_end_of, trim_of, trim_start_of,
};
use crate::tools::file::{file_dialogue, open_and_read, FileRead, ReadSaid};
use vstd::prelude::*;
use vstd::slice::slice_subrange;
use vstd::string::*;

verus! {

// ---------------------------------------------------------------------------
// The symbol
// ---------------------------------------------------------------------------

/// The smaller of two numbers.
pub open spec fn least(a: nat, b: nat) -> nat {
    if a <= b {
        a
    } else {
        b
    }
}

/// The byte at which character number `n` of a line begins; the end of the line
/// where it has no such character.
pub fn char_offset_to_byte(line: &str, char_offset: usize) -> (r: usize)
    ensures
        r == byte_len(line@.take(least(char_offset as nat, line@.len()) as int)),
{
    let cs = chars_of(line);
    let n: usize = if char_offset <= cs.len() {
        char_offset
    } else {
        cs.len()
    };
    let head = slice_subrange(&cs, 0, n);
    proof {
        assert(head@ =~= line@.take(n as int));
    }
    chars_bytes(head)
}

/// The start and the end of a range, each a line and a character from 0.
pub open spec fn bounds_of(range: Option<JsonView>) -> Option<((usize, usize), (usize, usize))> {
    match range {
        Some(r) => match (r.member("start"@), r.member("end"@)) {
            (Some(_), Some(_)) => Some(
                (
                    (
                        nat_or(uint_at(r, "start"@, "line"@), 0) as usize,
                        nat_or(uint_at(r, "start"@, "character"@), 0) as usize,
                    ),
                    (
                        nat_or(uint_at(r, "end"@, "line"@), 0) as usize,
                        nat_or(uint_at(r, "end"@, "character"@), 0) as usize,
                    ),
                ),
            ),
            _ => None,
        },
        None => None,
    }
}

/// What stands in a text from one position up to another, the characters of a
/// line beyond its end being none. It is empty where a line is not one of the
/// text's, or where the end comes before the start in one line.
pub open spec fn span_of(content: Seq<char>, start: (usize, usize), end: (usize, usize)) -> Seq<
    char,
> {
    let lines = split_of(content, '\n');
    if start.0 >= lines.len() || end.0 >= lines.len() {
        Seq::empty()
    } else {
        let first = lines[start.0 as int];
        let last = lines[end.0 as int];
        let a = least(start.1 as nat, first.len()) as int;
        let b = least(end.1 as nat, last.len()) as int;
        if start.0 == end.0 {
            if a <= b {
                first.subrange(a, b)
            } else {
                Seq::empty()
            }
        } else {
            join_of(
                seq![first.skip(a)] + lines.subrange(start.0 + 1, end.0 as int) + seq![
                    last.take(b),
                ],
                "\n"@,
            )
        }
    }
}

/// Whether a range does not end on a line of the text before the one on which
/// it starts.
pub open spec fn forward(content: Seq<char>, range: Option<JsonView>) -> bool {
    match bounds_of(range) {
        Some(b) => b.0.0 < split_of(content, '\n').len() ==> b.0.0 <= b.1.0,
        None => true,
    }
}

/// The text of a range; empty where there is none.
pub open spec fn symbol_of(content: Seq<char>, range: Option<JsonView>) -> Seq<char> {
    match bounds_of(range) {
        Some(b) => span_of(content, b.0, b.1),
        None => Seq::empty(),
    }
}

/// A number of a range, and 0 where it is not given.
fn bound(range: &Json, a: &str, b: &str) -> (r: usize)
    ensures
        r == nat_or(uint_at(range@, a@, b@), 0) as usize,
{
    match range.uint_at(a, b) {
        Some(n) => n as usize,
        None => 0,
    }
}

/// The start and the end of a range.
fn bounds(range: Option<&Json>) -> (r: Option<((usize, usize), (usize, usize))>)
    ensures
        r == bounds_of(opt_view(range)),
{
    let range = match range {
        Some(range) => range,
        None => return None,
    };
    if range.get("start").is_none() || range.get("end").is_none() {
        return None;
    }
    Some(
        (
            (bound(range, "start", "line"), bound(range, "start", "character")),
            (bound(range, "end", "line"), bound(range, "end", "character")),
        ),
    )
}

/// Whether a range does not end on a line of the text before the one on which
/// it starts.
pub fn range_forward(content: &str, range: Option<&Json>) -> (r: bool)
    ensures
        r == forward(content@, opt_view(range)),
{
    match bounds(range) {
        Some(b) => {
            let lines = split(content, '\n');
            proof {
                assert(texts(lines@).len() == lines@.len());
            }
            b.0.0 >= lines.len() || b.0.0 <= b.1.0
        },
        None => true,
    }
}

/// The part of a line between two characters, as far as the line goes.
fn line_part(line: &str, from: usize, to: Option<usize>) -> (r: String)
    ensures
        ({
            let a = least(from as nat, line@.len()) as int;
            let b = match to {
                Some(n) => least(n as nat, line@.len()) as int,
                None => line@.len() as int,
            };
            r@ == if a <= b {
                line@.subrange(a, b)
            } else {
                Seq::empty()
            }
        }),
{
    let cs = chars_of(line);
    let a: usize = if from <= cs.len() {
        from
    } else {
        cs.len()
    };
    let b: usize = match to {
        Some(n) => if n <= cs.len() {
            n
        } else {
            cs.len()
        },
        None => cs.len(),
    };
    if a <= b {
        text_of(slice_subrange(&cs, a, b))
    } else {
        String::new()
    }
}

/// The text of a range; empty where there is none. The range must not end on a
/// line before the one on which it starts.
pub fn extract_symbol_from_range(content: &str, range: Option<&Json>) -> (r: String)
    requires
        forward(content@, opt_view(range)),
    ensures
        r@ == symbol_of(content@, opt_view(range)),
{
    let (start, end) = match bounds(range) {
        Some(b) => b,
        None => return String::new(),
    };
    let lines = split(content, '\n');
    let ghost all = split_of(content@, '\n');
    proof {
        assert(texts(lines@).len() == lines@.len());
    }
    if start.0 >= lines.len() || end.0 >= lines.len() {
        return String::new();
    }
    proof {
        assert(all[start.0 as int] == lines@[start.0 as int]@);
        assert(all[end.0 as int] == lines@[end.0 as int]@);
    }
    if start.0 == end.0 {
        return line_part(lines[start.0].as_str(), start.1, Some(end.1));
    }
    let ghost first = all[start.0 as int];
    let ghost last = all[end.0 as int];
    let mut parts: Vec<String> = Vec::new();
    parts.push(line_part(lines[start.0].as_str(), start.1, None));
    let ghost a = least(start.1 as nat, first.len()) as int;
    proof {
        assert(first.subrange(a, first.len() as int) =~= first.skip(a));
        assert(texts(parts@) =~= seq![first.skip(a)] + all.subrange(start.0 + 1, start.0 + 1));
    }
    for i in start.0 + 1..end.0
        invariant
            start.0 < end.0 < lines@.len(),
            texts(lines@) == all,
            texts(parts@) == seq![first.skip(a)] + all.subrange(start.0 + 1, i as int),
    {
        let ghost before = parts@;
        parts.push(lines[i].clone());
        proof {
            assert(all[i as int] == lines@[i as int]@);
            assert(texts(parts@) =~= texts(before).push(all[i as int]));
            assert(all.subrange(start.0 + 1, i + 1) =~= all.subrange(start.0 + 1, i as int).push(
                all[i as int],
            ));
        }
    }
    let ghost before = parts@;
    parts.push(line_part(lines[end.0].as_str(), 0, Some(end.1)));
    proof {
        let b = least(end.1 as nat, last.len()) as int;
        assert(last.subrange(0, b) =~= last.take(b));
        assert(texts(parts@) =~= texts(before) + seq![last.take(b)]);
    }
    join(&parts, "\n")
}

// ---------------------------------------------------------------------------
// What is known of it
// ---------------------------------------------------------------------------

/// A text without the fences of code blocks and without white space at either
/// end.
pub open spec fn plain(s: Seq<char>) -> Seq<char> {
    trim_of(
        replace_of(
            replace_of(
                replace_of(replace_of(s, "```lean\n"@, ""@), "\n```"@, ""@),
                "```lean"@,
                ""@,
            ),
            "```"@,
            ""@,
        ),
    )
}

/// A text without the fences of code blocks and without white space at either
/// end.
pub fn strip_markdown_fences(s: &str) -> (r: String)
    ensures
        r@ == plain(s@),
{
    proof {
        reveal_strlit("```lean\n");
        reveal_strlit("\n```");
        reveal_strlit("```lean");
        reveal_strlit("```");
    }
    let s = replace(s, "```lean\n", "");
    let s = replace(s.as_str(), "\n```", "");
    let s = replace(s.as_str(), "```lean", "");
    let s = replace(s.as_str(), "```", "");
    text_of(trim(&chars_of(s.as_str())))
}

/// Taking out all fences from the left leaves none: where one is taken out, no
/// backtick stands right before it.
proof fn lemma_fences_out(s: Seq<char>)
    ensures
        !contains_of(replace_of(s, "```"@, ""@), "```"@),
    decreases s.len(),
{
    reveal_strlit("```");
    reveal_strlit("");
    let p = "```"@;
    let r = replace_of(s, p, ""@);
    lemma_find_contains(s, p);
    lemma_first_from(s, p, 0);
    if let Some(i) = find_of(s, p) {
        let rest = s.skip(i + 3);
        let t = replace_of(rest, p, ""@);
        lemma_fences_out(rest);
        assert(r == s.take(i) + ""@ + t);
        assert(r =~= s.take(i) + t);
        assert forall|k: int| !occurs_at(r, p, k) by {
            if occurs_at(r, p, k) {
                let there = r.subrange(k, k + 3);
                assert(there[0] == '`' && there[1] == '`' && there[2] == '`');
                if k + 3 <= i {
                    assert(s.subrange(k, k + 3) =~= there);
                    assert(occurs_at(s, p, k));
                } else if k >= i {
                    assert(t.subrange(k - i, k - i + 3) =~= there);
                    assert(occurs_at(t, p, k - i));
                } else {
                    let fence = s.subrange(i, i + 3);
                    assert(fence[0] == '`' && fence[1] == '`');
                    assert(s[i - 1] == there[i - 1 - k]);
                    assert(s[i] == fence[0] && s[i + 1] == fence[1]);
                    assert(s.subrange(i - 1, i + 2) =~= p);
                    assert(occurs_at(s, p, i - 1));
                }
            }
        }
    }
}

/// A text in which nothing is found stays as it is.
proof fn lemma_nothing_out(s: Seq<char>, p: Seq<char>)
    requires
        !contains_of(s, p),
    ensures
        replace_of(s, p, ""@) == s,
{
    lemma_find_contains(s, p);
}

/// What is plain holds no fence and has no white space at either end, and stays as
/// it is when it is made plain again.
pub proof fn lemma_plain(s: Seq<char>)
    ensures
        !contains_of(plain(s), "```"@),
        plain(s).len() > 0 ==> !is_space(plain(s)[0]) && !is_space(plain(s).last()),
        plain(plain(s)) == plain(s),
{
    reveal_strlit("```lean\n");
    reveal_strlit("\n```");
    reveal_strlit("```lean");
    reveal_strlit("```");
    let p = "```"@;
    let before = replace_of(
        replace_of(replace_of(s, "```lean\n"@, ""@), "\n```"@, ""@),
        "```lean"@,
        ""@,
    );
    let bare = replace_of(before, p, ""@);
    let begun = trim_start_of(bare);
    let t = plain(s);
    lemma_fences_out(before);
    lemma_trim_start(bare);
    lemma_trim_end(begun);
    let skipped = bare.len() - begun.len();
    assert forall|k: int| !occurs_at(t, p, k) by {
        if occurs_at(t, p, k) {
            assert(bare.subrange(skipped + k, skipped + k + 3) =~= t.subrange(k, k + 3));
            assert(occurs_at(bare, p, skipped + k));
        }
    }
    assert(!contains_of(t, "```lean\n"@)) by {
        assert forall|k: int| !occurs_at(t, "```lean\n"@, k) by {
            if occurs_at(t, "```lean\n"@, k) {
                assert(t.subrange(k, k + 3) =~= t.subrange(k, k + 8).take(3));
                assert("```lean\n"@.take(3) =~= p);
                assert(occurs_at(t, p, k));
            }
        }
    }
    assert(!contains_of(t, "\n```"@)) by {
        assert forall|k: int| !occurs_at(t, "\n```"@, k) by {
            if occurs_at(t, "\n```"@, k) {
                assert(t.subrange(k + 1, k + 4) =~= t.subrange(k, k + 4).skip(1));
                assert("\n```"@.skip(1) =~= p);
                assert(occurs_at(t, p, k + 1));
            }
        }
    }
    assert(!contains_of(t, "```lean"@)) by {
        assert forall|k: int| !occurs_at(t, "```lean"@, k) by {
            if occurs_at(t, "```lean"@, k) {
                assert(t.subrange(k, k + 3) =~= t.subrange(k, k + 7).take(3));
                assert("```lean"@.take(3) =~= p);
                assert(occurs_at(t, p, k));
            }
        }
    }
    lemma_nothing_out(t, "```lean\n"@);
    lemma_nothing_out(t, "\n```"@);
    lemma_nothing_out(t, "```lean"@);
    lemma_nothing_out(t, p);
    if t.len() > 0 {
        assert(t[0] == begun[0]);
    }
    assert(trim_start_of(t) == t);
    assert(trim_end_of(t) == t);
}

/// The text that a hover brings.
pub open spec fn hover_text(hover: JsonView) -> Seq<char> {
    plain(
        match hover.member2("contents"@, "value"@) {
            Some(v) => match v.text() {
                Some(s) => s,
                None => "No hover information available."@,
            },
            None => "No hover information available."@,
        },
    )
}

/// The text that a hover brings is its value made plain; where it has none, it says so.
pub proof fn lemma_hover_text(hover: JsonView)
    ensures
        hover.member2("contents"@, "value"@) matches Some(JsonView::Str(s)) ==> hover_text(hover)
            == plain(s),
        !(hover.member2("contents"@, "value"@) matches Some(JsonView::Str(_))) ==> hover_text(hover)
            == plain("No hover information available."@),
{
}

/// The text that a hover brings.
pub fn extract_hover_content(hover: &Json) -> (r: String)
    ensures
        r@ == hover_text(hover@),
{
    let raw = match hover.get2("contents", "value") {
        Some(v) => match v.as_str() {
            Some(s) => s,
            None => "No hover information available.",
        },
        None => "No hover information available.",
    };
    strip_markdown_fences(raw)
}

// ---------------------------------------------------------------------------
// Diagnostics at a place
// ---------------------------------------------------------------------------

/// The diagnostics in a reply, which is either the list itself or holds it.
pub open spec fn raw_diagnostics(value: JsonView) -> Seq<JsonView> {
    match value.items() {
        Some(items) => items,
        None => match items_member(value, "diagnostics"@) {
            Some(items) => items,
            None => Seq::empty(),
        },
    }
}

/// Whether a place (from 0) lies in the range of a diagnostic. Numbers count as
/// those of 32 bits.
pub open spec fn covers(d: JsonView, line: u32, column: u32) -> bool {
    match full_range(d) {
        Some(r) => match (uint_at(r, "start"@, "line"@), uint_at(r, "end"@, "line"@)) {
            (Some(s), Some(e)) => {
                let sl = s as u32;
                let el = e as u32;
                let sc = nat_or(uint_at(r, "start"@, "character"@), 0) as u32;
                let ec = nat_or(uint_at(r, "end"@, "character"@), (column + 1) as nat) as u32;
                if line < sl || line > el {
                    false
                } else if sl == el && sc == ec {
                    column == sc
                } else {
                    !(line == sl && column < sc) && !(line == el && column >= ec)
                }
            },
            _ => false,
        },
        None => false,
    }
}

/// Whether a place (from 0) lies in the range of a diagnostic.
pub fn diagnostic_intersects(diag: &Json, line: u32, column: u32) -> (b: bool)
    ensures
        b == covers(diag@, line, column),
{
    let r = match full_range_of(diag) {
        Some(r) => r,
        None => return false,
    };
    match (r.uint_at("start", "line"), r.uint_at("end", "line")) {
        (Some(s), Some(e)) => {
            let sl: u32 = s as u32;
            let el: u32 = e as u32;
            if line < sl || line > el {
                return false;
            }
            let sc: u32 = match r.uint_at("start", "character") {
                Some(n) => n as u32,
                None => 0,
            };
            let ec: u32 = match r.uint_at("end", "character") {
                Some(n) => n as u32,
                None => (column as u64 + 1) as u32,
            };
            if sl == el && sc == ec {
                return column == sc;
            }
            !(line == sl && column < sc) && !(line == el && column >= ec)
        },
        _ => false,
    }
}

/// The diagnostics whose range holds a place (from 0).
pub fn filter_diagnostics_by_position(
    diagnostics: &[Json],
    line: u32,
    column: u32,
) -> (r: Vec<Json>)
    ensures
        views(r@) == views(diagnostics@).filter(|d: JsonView| covers(d, line, column)),
{
    let mut kept: Vec<Json> = Vec::new();
    let ghost ds = views(diagnostics@);
    let ghost f = |d: JsonView| covers(d, line, column);
    proof {
        reveal(Seq::filter);
        assert(views(kept@) =~= ds.take(0).filter(f));
    }
    for i in 0..diagnostics.len()
        invariant
            ds == views(diagnostics@),
            f == (|d: JsonView| covers(d, line, column)),
            views(kept@) == ds.take(i as int).filter(f),
    {
        proof {
            lemma_filter_next(ds, f, i as int);
            assert(ds[i as int] == diagnostics@[i as int]@);
        }
        if diagnostic_intersects(&diagnostics[i], line, column) {
            let ghost before = kept@;
            kept.push(diagnostics[i].duplicate());
            proof {
                lemma_views_push(before, kept@.last());
            }
        }
    }
    proof {
        lemma_take_all(ds);
    }
    kept
}

/// Whether one place comes before another.
pub open spec fn place_before(a: (u32, u32), b: (u32, u32)) -> bool {
    a.0 < b.0 || (a.0 == b.0 && a.1 < b.1)
}

/// A place lies in the range of a diagnostic if it does not come before its start, and
/// comes before its end; in a range without extent lies its only place.
pub proof fn lemma_covers(d: JsonView, r: JsonView, start: (u32, u32), end: (u32, u32),
    at: (u32, u32))
    requires
        d.member("fullRange"@) == Some(r) || (d.member("fullRange"@) is None && d.member("range"@)
            == Some(r)),
        uint_at(r, "start"@, "line"@) == Some(start.0 as nat),
        uint_at(r, "start"@, "character"@) == Some(start.1 as nat),
        uint_at(r, "end"@, "line"@) == Some(end.0 as nat),
        uint_at(r, "end"@, "character"@) == Some(end.1 as nat),
    ensures
        covers(d, at.0, at.1) <==> (!place_before(at, start) && place_before(at, end)) || (start
            == end && at == start),
{
}

/// A diagnostic whose severity is still a number.
pub struct NumberedView {
    pub severity: i32,
    pub message: Seq<char>,
    pub line: i64,
    pub column: i64,
}

/// The message that a diagnostic of the language server stands for; none where
/// it has no range.
pub open spec fn numbered_of(d: JsonView) -> Option<NumberedView> {
    match full_range(d) {
        Some(r) => Some(
            NumberedView {
                severity: match int_member(d, "severity"@) {
                    Some(n) => n as i32,
                    None => 1,
                },
                message: text_or_empty(text_member(d, "message"@)),
                line: one_based(int_at(r, "start"@, "line"@, 0)) as i64,
                column: one_based(int_at(r, "start"@, "character"@, 0)) as i64,
            },
        ),
        None => None,
    }
}

/// A diagnostic whose severity is still a number.
pub struct Numbered {
    pub severity: i32,
    pub message: String,
    pub line: i64,
    pub column: i64,
}

impl View for Numbered {
    type V = NumberedView;

    open spec fn view(&self) -> NumberedView {
        NumberedView {
            severity: self.severity,
            message: self.message@,
            line: self.line,
            column: self.column,
        }
    }
}

/// A diagnostic with a range is told, and no other: its message, the place (from 1) at
/// which its range starts, and the number of its severity, which is 1 where it has none.
pub proof fn lemma_numbered_told(d: JsonView)
    ensures
        numbered_of(d) is Some <==> d.member("fullRange"@) is Some || d.member("range"@) is Some,
        numbered_of(d) matches Some(m) ==> {
            let r = match d.member("fullRange"@) {
                Some(r) => r,
                None => d.member("range"@)->0,
            };
            let line = int_at(r, "start"@, "line"@, 0);
            let column = int_at(r, "start"@, "character"@, 0);
            &&& text_member(d, "message"@) matches Some(t) ==> m.message == t
            &&& text_member(d, "message"@) is None ==> m.message.len() == 0
            &&& line < i64::MAX ==> m.line == line + 1
            &&& column < i64::MAX ==> m.column == column + 1
            &&& int_member(d, "severity"@) is None ==> m.severity == 1
            &&& int_member(d, "severity"@) matches Some(n) ==> (i32::MIN <= n <= i32::MAX
                ==> m.severity == n)
        },
{
}

/// The messages that some diagnostics of the language server stand for.
pub open spec fn numbered_all(ds: Seq<JsonView>) -> Seq<NumberedView> {
    ds.filter_map(|d: JsonView| numbered_of(d))
}

/// The messages that some diagnostics of the language server stand for.
fn numbered(diagnostics: &[Json]) -> (r: Vec<Numbered>)
    ensures
        all_views(r@) == numbered_all(views(diagnostics@)),
{
    let mut out: Vec<Numbered> = Vec::new();
    let ghost ds = views(diagnostics@);
    let ghost f = |d: JsonView| numbered_of(d);
    proof {
        assert(all_views(out@) =~= ds.take(0).filter_map(f));
    }
    for i in 0..diagnostics.len()
        invariant
            ds == views(diagnostics@),
            f == (|d: JsonView| numbered_of(d)),
            all_views(out@) == ds.take(i as int).filter_map(f),
    {
        let diag = &diagnostics[i];
        proof {
            lemma_filter_map_next(ds, f, i as int);
            assert(ds[i as int] == diag@);
        }
        if let Some(r) = full_range_of(diag) {
            let severity: i32 = match diag.int_member("severity") {
                Some(n) => n as i32,
                None => 1,
            };
            let message = match diag.text_member("message") {
                Some(s) => s.to_owned(),
                None => String::new(),
            };
            let ghost before = out@;
            out.push(
                Numbered {
                    severity,
                    message,
                    line: from_one(r.int_at("start", "line")),
                    column: from_one(r.int_at("start", "character")),
                },
            );
            proof {
                lemma_views_push(before, out@.last());
            }
        }
    }
    proof {
        lemma_take_all(ds);
    }
    out
}

/// The severities of some messages.
pub open spec fn severities_of(ms: Seq<NumberedView>) -> Seq<i32> {
    ms.map_values(|m: NumberedView| m.severity)
}

/// The severities of some messages.
fn severities(ms: &[Numbered]) -> (r: Vec<i32>)
    ensures
        r@ == severities_of(all_views(ms@)),
{
    let mut out: Vec<i32> = Vec::new();
    for i in 0..ms.len()
        invariant
            out@ == severities_of(all_views(ms@)).take(i as int),
    {
        out.push(ms[i].severity);
        proof {
            assert(severities_of(all_views(ms@)).take(i + 1) =~= severities_of(
                all_views(ms@),
            ).take(i as int).push(ms@[i as int].severity));
        }
    }
    proof {
        lemma_take_all(severities_of(all_views(ms@)));
    }
    out
}

/// Messages with the names of their severities.
pub open spec fn named_of(ms: Seq<NumberedView>, names: Seq<Seq<char>>) -> Seq<
    DiagnosticMessageView,
> {
    Seq::new(
        ms.len(),
        |i: int|
            DiagnosticMessageView {
                severity: text_at(names, i),
                message: ms[i].message,
                line: ms[i].line,
                column: ms[i].column,
            },
    )
}

/// Messages with the names of their severities.
fn named(ms: &[Numbered], names: &[String]) -> (r: Vec<DiagnosticMessage>)
    ensures
        all_views(r@) == named_of(all_views(ms@), texts(names@)),
{
    let ghost all = named_of(all_views(ms@), texts(names@));
    let mut out: Vec<DiagnosticMessage> = Vec::new();
    for i in 0..ms.len()
        invariant
            all == named_of(all_views(ms@), texts(names@)),
            all_views(out@) == all.take(i as int),
    {
        let ghost before = out@;
        out.push(
            DiagnosticMessage {
                severity: nth_text(names, i),
                message: ms[i].message.clone(),
                line: ms[i].line,
                column: ms[i].column,
            },
        );
        proof {
            lemma_views_push(before, out@.last());
            assert(out@.last()@ == all[i as int]);
            assert(all.take(i + 1) =~= all.take(i as int).push(all[i as int]));
        }
    }
    proof {
        lemma_take_all(all);
    }
    out
}

// ---------------------------------------------------------------------------
// The tool
// ---------------------------------------------------------------------------

/// What `lean_hover_info` comes to.
pub type HoverSaid = Result<HoverInfoView, ErrorView>;

/// After the names of the severities came.
pub open spec fn hover_named(
    symbol: Seq<char>,
    info: Seq<char>,
    ms: Seq<NumberedView>,
) -> Waiting<HoverSaid> {
    |r: ReplyView|
        Dialogue::Finish(
            Ok(HoverInfoView { symbol, info, diagnostics: named_of(ms, r.texts_told()) }),
        )
}

/// The messages at a place (from 1) out of a reply.
pub open spec fn messages_at(raw: JsonView, line: u32, column: u32) -> Seq<NumberedView> {
    numbered_all(
        raw_diagnostics(raw).filter(|d: JsonView| covers(d, prior_of(line), prior_of(column))),
    )
}

/// After the diagnostics came.
pub open spec fn hover_diagnosed(
    symbol: Seq<char>,
    info: Seq<char>,
    line: u32,
    column: u32,
) -> Waiting<HoverSaid> {
    |r: ReplyView|
        match r {
            ReplyView::Value(raw) => {
                let ms = messages_at(raw, line, column);
                Dialogue::Ask(
                    RequestView::SeverityNames { severities: severities_of(ms) },
                    hover_named(symbol, info, ms),
                )
            },
            _ => Dialogue::Finish(
                Ok(HoverInfoView { symbol, info, diagnostics: Seq::empty() }),
            ),
        }
}

/// After the hover came.
pub open spec fn hover_told(path: Seq<char>, content: Seq<char>, line: u32, column: u32) -> Waiting<
    HoverSaid,
> {
    |r: ReplyView|
        match r {
            ReplyView::MaybeValue(Some(v)) => Dialogue::Ask(
                RequestView::Diagnostics {
                    path,
                    start_line: None,
                    end_line: None,
                    bounded: false,
                },
                hover_diagnosed(
                    symbol_of(content, v.member("range"@)),
                    hover_text(v),
                    line,
                    column,
                ),
            ),
            ReplyView::MaybeValue(None) => Dialogue::Finish(
                Err(ErrorView::NoHoverInfo { line: line as nat, column: column as nat }),
            ),
            _ => Dialogue::Finish(Err(lsp_failure("get_hover"@, r.trouble()))),
        }
}

/// Asks for the hover in a file that was read.
pub open spec fn hover_within(path: Seq<char>, line: u32, column: u32) -> spec_fn(
    ReadSaid,
) -> Dialogue<HoverSaid> {
    |res: ReadSaid|
        match res {
            Ok(content) => Dialogue::Ask(
                RequestView::Hover { path, line: prior_of(line), column: prior_of(column) },
                hover_told(path, content, line, column),
            ),
            Err(e) => Dialogue::Finish(Err(e)),
        }
}

/// The whole of `lean_hover_info`.
pub open spec fn hover_dialogue(path: Seq<char>, line: u32, column: u32) -> Dialogue<HoverSaid> {
    followed(file_dialogue(path), hover_within(path, line, column))
}

/// `lean_hover_info` at work.
pub enum HoverCall {
    /// Waits for the content of the file.
    Reading { call: FileRead, path: String, line: u32, column: u32 },
    /// Waits for the hover.
    Asking { path: String, content: String, line: u32, column: u32 },
    /// Waits for the diagnostics.
    Diagnosing { symbol: String, info: String, line: u32, column: u32 },
    /// Waits for the names of the severities.
    Naming { symbol: String, info: String, ms: Vec<Numbered> },
}

impl Waits for HoverCall {
    type Out = Result<HoverInfo, LeanToolError>;

    type Said = HoverSaid;

    open spec fn said(o: Self::Out) -> HoverSaid {
        result_view(o)
    }

    open spec fn valid(self) -> bool {
        true
    }

    open spec fn waiting(self) -> Waiting<HoverSaid> {
        match self {
            HoverCall::Reading { call, path, line, column } => waiting_first(
                call.waiting(),
                hover_within(path@, line, column),
            ),
            HoverCall::Asking { path, content, line, column } => hover_told(
                path@,
                content@,
                line,
                column,
            ),
            HoverCall::Diagnosing { symbol, info, line, column } => hover_diagnosed(
                symbol@,
                info@,
                line,
                column,
            ),
            HoverCall::Naming { symbol, info, ms } => hover_named(
                symbol@,
                info@,
                all_views(ms@),
            ),
        }
    }

    open spec fn admits(self, r: ReplyView) -> bool {
        match (self, r) {
            (HoverCall::Asking { content, .. }, ReplyView::MaybeValue(Some(v))) => forward(
                content@,
                v.member("range"@),
            ),
            _ => true,
        }
    }
}

impl HoverCall {
    /// Goes on with the reading.
    fn read(
        t: Turn<FileRead, Result<String, LeanToolError>>,
        path: String,
        line: u32,
        column: u32,
    ) -> (r: Turn<HoverCall, Result<HoverInfo, LeanToolError>>)
        ensures
            forall|d: Dialogue<ReadSaid>| #[trigger]
                begins(t, d) ==> begins(r, followed(d, hover_within(path@, line, column))),
    {
        match t {
            Turn::Ask(q, call) => {
                proof {
                    lemma_followed(q@, call.waiting(), hover_within(path@, line, column));
                }
                Turn::Ask(q, HoverCall::Reading { call, path, line, column })
            },
            Turn::Done(Ok(content)) => Turn::Ask(
                Request::Hover {
                    path: path.clone(),
                    line: prior_number(line),
                    column: prior_number(column),
                },
                HoverCall::Asking { path, content, line, column },
            ),
            Turn::Done(Err(e)) => Turn::Done(Err(e)),
        }
    }

    /// The messages at a place (from 1) out of a reply.
    fn messages(raw: &Json, line: u32, column: u32) -> (r: Vec<Numbered>)
        ensures
            all_views(r@) == messages_at(raw@, line, column),
    {
        let none: Vec<Json> = Vec::new();
        proof {
            assert(views(none@) =~= Seq::empty());
        }
        let all = match raw.as_array() {
            Some(items) => items,
            None => match raw.items_member("diagnostics") {
                Some(items) => items,
                None => &none,
            },
        };
        numbered(
            &filter_diagnostics_by_position(all, prior_number(line), prior_number(column)),
        )
    }
}

impl Call for HoverCall {
    fn accepts(&self, reply: &Reply) -> (r: bool) {
        match (self, reply) {
            (HoverCall::Asking { content, .. }, Reply::MaybeValue(Some(v))) => range_forward(
                content.as_str(),
                v.get("range"),
            ),
            _ => true,
        }
    }

    fn resume(self, reply: Reply) -> (t: Turn<Self, Self::Out>) {
        match self {
            HoverCall::Reading { call, path, line, column } => HoverCall::read(
                call.resume(reply),
                path,
                line,
                column,
            ),
            HoverCall::Asking { path, content, line, column } => match reply.maybe_value() {
                Ok(Some(v)) => {
                    let symbol = extract_symbol_from_range(content.as_str(), v.get("range"));
                    let info = extract_hover_content(&v);
                    Turn::Ask(
                        Request::Diagnostics {
                            path,
                            start_line: None,
                            end_line: None,
                            bounded: false,
                        },
                        HoverCall::Diagnosing { symbol, info, line, column },
                    )
                },
                Ok(None) => Turn::Done(Err(LeanToolError::NoHoverInfo { line, column })),
                Err(m) => Turn::Done(Err(lsp_error("get_hover", m))),
            },
            HoverCall::Diagnosing { symbol, info, line, column } => match reply.value() {
                Ok(raw) => {
                    let ms = HoverCall::messages(&raw, line, column);
                    Turn::Ask(
                        Request::SeverityNames { severities: severities(&ms) },
                        HoverCall::Naming { symbol, info, ms },
                    )
                },
                Err(_) => {
                    let diagnostics: Vec<DiagnosticMessage> = Vec::new();
                    proof {
                        assert(all_views(diagnostics@) =~= Seq::empty());
                    }
                    Turn::Done(Ok(HoverInfo { symbol, info, diagnostics }))
                },
            },
            HoverCall::Naming { symbol, info, ms } => Turn::Done(
                Ok(HoverInfo { symbol, info, diagnostics: named(&ms, &reply.texts_told()) }),
            ),
        }
    }
}

/// What is known of the symbol at a place of a file, with the diagnostics there.
/// `line` and `column` count from 1.
pub fn handle_lean_hover(file_path: &str, line: u32, column: u32) -> (t: Turn<
    HoverCall,
    Result<HoverInfo, LeanToolError>,
>)
    ensures
        begins(t, hover_dialogue(file_path@, line, column)),
{
    HoverCall::read(open_and_read(file_path), file_path.to_owned(), line, column)
}

/// The text between two places of a content: what stands before the first, the text and what
/// stands behind the second are the content, and the first two end at the places. They are
/// handed back.
pub proof fn lemma_span_between(content: Seq<char>, start: (usize, usize), end: (usize,
    usize)) -> (r:
    (Seq<char>, Seq<char>))
    requires
        start.0 <= end.0 < split_of(content, '\n').len(),
        start.1 <= split_of(content, '\n')[start.0 as int].len(),
        end.1 <= split_of(content, '\n')[end.0 as int].len(),
        start.0 == end.0 ==> start.1 <= end.1,
    ensures
        r.0 + span_of(content, start, end) + r.1 == content,
        split_of(r.0, '\n').len() == start.0 + 1,
        split_of(r.0, '\n').last().len() == start.1,
        split_of(r.0 + span_of(content, start, end), '\n').len() == end.0 + 1,
        split_of(r.0 + span_of(content, start, end), '\n').last().len() == end.1,
{
    reveal_strlit("\n");
    assert("\n"@ =~= seq!['\n']);
    let lines = split_of(content, '\n');
    lemma_split_pieces(content, '\n');
    let s = start.0 as int;
    let e = end.0 as int;
    let a = start.1 as int;
    let b = end.1 as int;
    let first = lines[s];
    let last = lines[e];
    assert(!first.contains('\n') && !last.contains('\n'));
    let l1 = lines.take(s).push(first.take(a));
    let l2 = if s == e {
        seq![first.subrange(a, b)]
    } else {
        seq![first.skip(a)] + lines.subrange(s + 1, e) + seq![last.take(b)]
    };
    let l3 = lines.take(e).push(last.take(b));
    let l4 = seq![last.skip(b)] + lines.skip(e + 1);
    assert forall|i: int| 0 <= i < l1.len() implies !(#[trigger] l1[i]).contains('\n') by {
        if i < s {
            assert(l1[i] == lines[i]);
        }
        if i == s {
            lemma_unbroken_part(first, 0, a);
            assert(first.take(a) =~= first.subrange(0, a));
        }
    }
    assert forall|i: int| 0 <= i < l2.len() implies !(#[trigger] l2[i]).contains('\n') by {
        if s == e {
            lemma_unbroken_part(first, a, b);
        } else if i == 0 {
            lemma_unbroken_part(first, a, first.len() as int);
            assert(first.skip(a) =~= first.subrange(a, first.len() as int));
        } else if i == l2.len() - 1 {
            lemma_unbroken_part(last, 0, b);
            assert(last.take(b) =~= last.subrange(0, b));
        } else {
            assert(l2[i] == lines[s + i]);
        }
    }
    assert forall|i: int| 0 <= i < l4.len() implies !(#[trigger] l4[i]).contains('\n') by {
        if i == 0 {
            lemma_unbroken_part(last, b, last.len() as int);
            assert(last.skip(b) =~= last.subrange(b, last.len() as int));
        } else {
            assert(l4[i] == lines[e + i]);
        }
    }
    lemma_split_join(l1, '\n');
    lemma_split_join(l2, '\n');
    lemma_split_join(l4, '\n');
    let before = join_of(l1, "\n"@);
    let span = join_of(l2, "\n"@);
    let after = join_of(l4, "\n"@);
    assert(span =~= span_of(content, start, end)) by {
        if s == e {
            assert(join_of(l2, "\n"@) == l2[0]);
        }
    }
    lemma_split_concat(before, span, '\n');
    assert(split_of(before + span, '\n') =~= l3) by {
        if s == e {
            assert(first.take(a) + first.subrange(a, b) =~= last.take(b));
        } else {
            assert(first.take(a) + first.skip(a) =~= first);
        }
    }
    lemma_split_concat(before + span, after, '\n');
    assert(last.take(b) + last.skip(b) =~= last);
    assert(split_of(before + span + after, '\n') =~= lines);
    lemma_join_split(before + span + after, '\n');
    lemma_join_split(content, '\n');
    (before, after)
}

/// A part of an unbroken line is unbroken.
proof fn lemma_unbroken_part(line: Seq<char>, a: int, b: int)
    requires
        !line.contains('\n'),
        0 <= a <= b <= line.len(),
    ensures
        !line.subrange(a, b).contains('\n'),
{
    if line.subrange(a, b).contains('\n') {
        let k = choose|k: int| 0 <= k < b - a && line.subrange(a, b)[k] == '\n';
        assert(line[a + k] == '\n');
    }
}

/// The symbol of a hover is the text of its range: from the line and character of its start
/// to those of its end. Where it has no range, or the range lacks either, it is empty.
pub proof fn lemma_symbol_told(content: Seq<char>, range: Option<JsonView>)
    ensures
        range is None ==> symbol_of(content, range).len() == 0,
        range matches Some(r) ==> {
            &&& r.member("start"@) is None || r.member("end"@) is None ==> symbol_of(
                content,
                range,
            ).len() == 0
            &&& r.member("start"@) is Some && r.member("end"@) is Some ==> symbol_of(content, range)
                == span_of(
                content,
                (number_in(r, "start"@, "line"@), number_in(r, "start"@, "character"@)),
                (number_in(r, "end"@, "line"@), number_in(r, "end"@, "character"@)),
            )
        },
{
}

/// A number in a range; 0 where there is none.
pub open spec fn number_in(r: JsonView, a: Seq<char>, b: Seq<char>) -> usize {
    match r.member2(a, b) {
        Some(JsonView::PosInt(n)) => n as usize,
        _ => 0,
    }
}

/// There is no text where a place lies on no line of the content, or where the range ends
/// before it starts on one line.
pub proof fn lemma_no_span(content: Seq<char>, start: (usize, usize), end: (usize, usize))
    requires
        start.0 >= split_of(content, '\n').len() || end.0 >= split_of(content, '\n').len() || (
        start.0 == end.0 && end.1 <= start.1),
    ensures
        span_of(content, start, end).len() == 0,
{
}

/// A diagnostic without a range, or without one of its lines, covers no place.
pub proof fn lemma_covers_nothing(d: JsonView, line: u32, column: u32)
    requires
        match full_range(d) {
            Some(r) => uint_at(r, "start"@, "line"@) is None || uint_at(r, "end"@, "line"@) is None,
            None => true,
        },
    ensures
        !covers(d, line, column),
{
}

/// In a text with one fence, the fence stands where it stands.
proof fn lemma_only_fence(a: Seq<char>, b: Seq<char>, p: Seq<char>, i: int)
    requires
        !a.contains('`'),
        !b.contains('`'),
        occurs_at(a + "```"@ + b, p, i),
        p.len() >= 3,
    ensures
        p[0] == '`' ==> i == a.len() || p[1] != '`' || p[2] != '`',
        p.len() >= 4 && p[1] == '`' && p[2] == '`' && p[3] == '`' && p[0] != '`' ==> i + 1
            == a.len(),
{
    reveal_strlit("```");
    let f = "```"@;
    assert(f.len() == 3 && f[0] == '`' && f[1] == '`' && f[2] == '`');
    let s = a + f + b;
    assert(s.subrange(i, i + p.len()) == p);
    assert forall|k: int| 0 <= k < p.len() implies #[trigger] p[k] == s[i + k] by {
        assert(s.subrange(i, i + p.len())[k] == s[i + k]);
    }
    assert forall|k: int| 0 <= k < s.len() && #[trigger] s[k] == '`' implies a.len() <= k < a.len()
        + 3 by {
        if k < a.len() {
            assert(a[k] == '`');
        } else if k >= a.len() + 3 {
            assert(b[k - a.len() - 3] == '`');
        }
    }
    if p[0] == '`' && p[1] == '`' && p[2] == '`' {
        assert(s[i] == '`' && s[i + 1] == '`' && s[i + 2] == '`');
    }
    if p.len() >= 4 && p[1] == '`' && p[2] == '`' && p[3] == '`' {
        assert(s[i + 1] == '`' && s[i + 2] == '`' && s[i + 3] == '`');
    }
}

/// A text without a fence has none in it.
proof fn lemma_no_fence(a: Seq<char>, p: Seq<char>, i: int)
    requires
        !a.contains('`'),
        p.contains('`'),
    ensures
        !occurs_at(a, p, i),
{
    if occurs_at(a, p, i) {
        let k = choose|k: int| 0 <= k < p.len() && p[k] == '`';
        assert(a.subrange(i, i + p.len())[k] == a[i + k]);
        assert(a[i + k] == '`');
    }
}

/// Nothing but white space is taken off a text without a fence.
pub proof fn lemma_plain_unfenced(s: Seq<char>)
    requires
        !s.contains('`'),
    ensures
        plain(s) == trim_of(s),
{
    reveal_strlit("```lean\n");
    reveal_strlit("\n```");
    reveal_strlit("```lean");
    reveal_strlit("```");
    assert("```lean\n"@[0] == '`' && "\n```"@[1] == '`' && "```lean"@[0] == '`' && "```"@[0]
        == '`');
    assert forall|i: int| !#[trigger] occurs_at(s, "```lean\n"@, i) by {
        lemma_no_fence(s, "```lean\n"@, i);
    }
    assert forall|i: int| !#[trigger] occurs_at(s, "\n```"@, i) by {
        lemma_no_fence(s, "\n```"@, i);
    }
    assert forall|i: int| !#[trigger] occurs_at(s, "```lean"@, i) by {
        lemma_no_fence(s, "```lean"@, i);
    }
    assert forall|i: int| !#[trigger] occurs_at(s, "```"@, i) by {
        lemma_no_fence(s, "```"@, i);
    }
    lemma_replace_none(s, "```lean\n"@, ""@);
    lemma_replace_none(s, "\n```"@, ""@);
    lemma_replace_none(s, "```lean"@, ""@);
    lemma_replace_none(s, "```"@, ""@);
}

/// A bare fence anywhere in a text is taken out, and nothing else but white space around the
/// text.
pub proof fn lemma_plain_bare(a: Seq<char>, b: Seq<char>)
    requires
        !a.contains('`'),
        !b.contains('`'),
        a.len() > 0 ==> a.last() != '\n',
        !starts_with_of(b, "lean"@),
    ensures
        plain(a + "```"@ + b) == trim_of(a + b),
{
    reveal_strlit("```lean\n");
    reveal_strlit("\n```");
    reveal_strlit("```lean");
    reveal_strlit("```");
    reveal_strlit("lean");
    reveal_strlit("");
    let s = a + "```"@ + b;
    let l = "```lean"@;
    let ln = "```lean\n"@;
    let n = "\n```"@;
    let f = "```"@;
    assert(f.len() == 3 && l.len() == 7 && ln.len() == 8 && n.len() == 4);
    assert forall|i: int| !#[trigger] occurs_at(s, l, i) by {
        if occurs_at(s, l, i) {
            lemma_only_fence(a, b, l, i);
            assert(b.take(4) =~= "lean"@) by {
                assert forall|k: int| 0 <= k < 4 implies b[k] == #[trigger] "lean"@[k] by {
                    assert(s.subrange(i, i + 7)[k + 3] == s[i + k + 3]);
                    assert(l[k + 3] == "lean"@[k]);
                }
            }
        }
    }
    assert forall|i: int| !#[trigger] occurs_at(s, ln, i) by {
        if occurs_at(s, ln, i) {
            assert(s.subrange(i, i + 7) =~= s.subrange(i, i + 8).take(7));
            assert(ln.take(7) =~= l);
            assert(occurs_at(s, l, i));
        }
    }
    assert forall|i: int| !#[trigger] occurs_at(s, n, i) by {
        if occurs_at(s, n, i) {
            lemma_only_fence(a, b, n, i);
            assert(s.subrange(i, i + 4)[0] == s[i]);
            assert(a.last() == '\n');
        }
    }
    lemma_replace_none(s, ln, ""@);
    lemma_replace_none(s, n, ""@);
    lemma_replace_none(s, l, ""@);
    assert forall|i: int| 0 <= i < a.len() implies !#[trigger] occurs_at(s, f, i) by {
        if occurs_at(s, f, i) {
            lemma_only_fence(a, b, f, i);
        }
    }
    lemma_replace_first(a, f, b, ""@);
    assert(f[0] == '`');
    assert forall|i: int| !#[trigger] occurs_at(b, f, i) by {
        lemma_no_fence(b, f, i);
    }
    lemma_replace_none(b, f, ""@);
    assert(a + ""@ + b =~= a + b);
}

/// Of code in a fence the code is told, without the white space around it.
pub proof fn lemma_plain_fenced(code: Seq<char>)
    requires
        !code.contains('`'),
    ensures
        plain("```lean\n"@ + code + "\n```"@) == trim_of(code),
{
    reveal_strlit("```lean\n");
    reveal_strlit("\n```");
    reveal_strlit("```lean");
    reveal_strlit("```");
    reveal_strlit("");
    let l = "```lean"@;
    let ln = "```lean\n"@;
    let n = "\n```"@;
    let f = "```"@;
    assert(f.len() == 3 && l.len() == 7 && ln.len() == 8 && n.len() == 4);
    let rest = code + n;
    let above = code.push('\n');
    assert(!above.contains('`')) by {
        if above.contains('`') {
            let k = choose|k: int| 0 <= k < above.len() && above[k] == '`';
            assert(code[k] == '`');
        }
    }
    let none = Seq::<char>::empty();
    assert(rest =~= above + f + none);
    assert(ln + code + n =~= none + ln + rest);
    lemma_replace_first(none, ln, rest, ""@);
    assert forall|i: int| !#[trigger] occurs_at(rest, ln, i) by {
        if occurs_at(rest, ln, i) {
            lemma_only_fence(above, none, ln, i);
        }
    }
    lemma_replace_none(rest, ln, ""@);
    assert(none + ""@ + rest =~= rest);
    assert(rest =~= code + n + none);
    assert forall|i: int| 0 <= i < code.len()
        implies !#[trigger] occurs_at(code + n + none, n, i) by {
        if occurs_at(code + n + none, n, i) {
            lemma_only_fence(above, none, n, i);
        }
    }
    lemma_replace_first(code, n, none, ""@);
    assert forall|i: int| !#[trigger] occurs_at(none, n, i) by {}
    lemma_replace_none(none, n, ""@);
    assert(code + ""@ + none =~= code);
    assert(l[0] == '`' && f[0] == '`');
    assert forall|i: int| !#[trigger] occurs_at(code, l, i) by {
        lemma_no_fence(code, l, i);
    }
    assert forall|i: int| !#[trigger] occurs_at(code, f, i) by {
        lemma_no_fence(code, f, i);
    }
    lemma_replace_none(code, l, ""@);
    lemma_replace_none(code, f, ""@);
}

} // verus!
