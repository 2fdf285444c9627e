//! `lean_project_health`: what is unfinished in the project.
use crate::json::{
    nat_or, parse_json, parsed_json, text_member, text_or_empty, views, Json, JsonView,
};
use crate::lists::{lemma_filter_map_is, lemma_filter_map_next, lemma_take_all, lemma_views_push};
use crate::models::{
    all_views, ProjectHealthResult, ProjectHealthResultView, SorryLocation, SorryLocationView,
};
use crate::position::{before_of, number_before};
use crate::protocol::{
    begins, Call, Dialogue, Reply, ReplyView, Request, RequestView, Turn, Waiting, Waits,
};
use crate::text::{
    byte_len, chars_bytes, chars_of, decimal, decimal_of, find, find_of, glue, join, join_of,
    lemma_trimmed, lines, lines_of, owned, same_text, starts_with_of, str_starts_with, strs,
    text_of, texts, trim, trim_of, trim_start, trim_start_of,
};
use vstd::prelude::*;
use vstd::slice::slice_subrange;
use vstd::string::*;

verus! {

// ---------------------------------------------------------------------------
// The output of ripgrep
// ---------------------------------------------------------------------------

/// What a run of ripgrep wrote, or what went wrong with it. That it found
/// nothing is no fault.
pub open spec fn rg_said(r: ReplyView, doing: Seq<char>) -> Result<Seq<char>, Seq<char>> {
    match r {
        ReplyView::Command { success, code, stdout, stderr } => if !success && code != Some(1i32) {
            Err("ripgrep error "@ + doing + ": "@ + stderr)
        } else {
            Ok(stdout)
        },
        _ => Err("ripgrep not found or failed to run: "@ + r.trouble()),
    }
}

/// What a text result says.
pub open spec fn text_result(r: Result<String, String>) -> Result<Seq<char>, Seq<char>> {
    match r {
        Ok(s) => Ok(s@),
        Err(s) => Err(s@),
    }
}

/// What a run of ripgrep wrote, or what went wrong with it.
fn rg_output(reply: Reply, doing: &str) -> (r: Result<String, String>)
    ensures
        text_result(r) == rg_said(reply@, doing@),
{
    match reply {
        Reply::Command { success, code, stdout, stderr } => {
            let missing = match code {
                Some(c) => c == 1,
                None => false,
            };
            if !success && !missing {
                let mut s = glue("ripgrep error ", doing);
                s.append(": ");
                s.append(stderr.as_str());
                Err(s)
            } else {
                Ok(stdout)
            }
        },
        other => Err(glue("ripgrep not found or failed to run: ", other.message().as_str())),
    }
}

/// A line, where it is not blank.
pub open spec fn filled(line: Seq<char>) -> Option<Seq<char>> {
    if trim_of(line).len() > 0 {
        Some(line)
    } else {
        None
    }
}

/// The lines of a text that are not blank.
pub open spec fn filled_lines(text: Seq<char>) -> Seq<Seq<char>> {
    lines_of(text).filter_map(|l: Seq<char>| filled(l))
}

/// The lines of a text that are not blank.
fn nonblank_lines(text: &str) -> (r: Vec<String>)
    ensures
        texts(r@) == filled_lines(text@),
{
    let ls = lines(text);
    let ghost all = lines_of(text@);
    let ghost f = |l: Seq<char>| filled(l);
    let mut out: Vec<String> = Vec::new();
    proof {
        assert(texts(out@) =~= all.take(0).filter_map(f));
        assert(texts(ls@).len() == ls@.len());
    }
    for i in 0..ls.len()
        invariant
            texts(ls@) == all,
            f == (|l: Seq<char>| filled(l)),
            texts(out@) == all.take(i as int).filter_map(f),
    {
        proof {
            lemma_filter_map_next(all, f, i as int);
            assert(all[i as int] == ls@[i as int]@);
        }
        if trim(&chars_of(ls[i].as_str())).len() > 0 {
            let ghost before = out@;
            out.push(ls[i].clone());
            proof {
                assert(texts(out@) =~= texts(before).push(ls@[i as int]@));
            }
        }
    }
    proof {
        lemma_take_all(all);
    }
    out
}

/// The number of files that a listing names, as a number of 32 bits.
pub fn count_files(listing: &str) -> (r: u32)
    ensures
        r == filled_lines(listing@).len() as u32,
{
    let ls = nonblank_lines(listing);
    proof {
        assert(texts(ls@).len() == ls@.len());
    }
    ls.len() as u32
}

/// The value that a line of JSON holds.
pub open spec fn record_of(line: Seq<char>) -> Option<JsonView> {
    match parsed_json(line) {
        Ok(v) => Some(v),
        Err(_) => None,
    }
}

/// The values that the lines of some output hold.
pub open spec fn records_of(output: Seq<char>) -> Seq<JsonView> {
    filled_lines(output).filter_map(|l: Seq<char>| record_of(l))
}

/// The values that the lines of some output hold. Lines that hold none are left
/// out.
pub fn records(output: &str) -> (r: Vec<Json>)
    ensures
        views(r@) == records_of(output@),
{
    let ls = nonblank_lines(output);
    let ghost all = filled_lines(output@);
    let ghost f = |l: Seq<char>| record_of(l);
    let mut out: Vec<Json> = Vec::new();
    proof {
        assert(views(out@) =~= all.take(0).filter_map(f));
        assert(texts(ls@).len() == ls@.len());
    }
    for i in 0..ls.len()
        invariant
            texts(ls@) == all,
            f == (|l: Seq<char>| record_of(l)),
            views(out@) == all.take(i as int).filter_map(f),
    {
        proof {
            lemma_filter_map_next(all, f, i as int);
            assert(all[i as int] == ls@[i as int]@);
        }
        if let Ok(v) = parse_json(ls[i].as_str()) {
            let ghost before = out@;
            out.push(v);
            proof {
                lemma_views_push(before, v);
            }
        }
    }
    proof {
        lemma_take_all(all);
    }
    out
}

/// A match of ripgrep.
pub struct HitView {
    pub file: Seq<char>,
    pub line: nat,
    pub text: Seq<char>,
}

/// The text of the member `b` of the member `a` of the data of a record.
pub open spec fn data_text(v: JsonView, a: Seq<char>, b: Seq<char>) -> Seq<char> {
    match v.member("data"@) {
        Some(data) => match data.member2(a, b) {
            Some(t) => text_or_empty(t.text()),
            None => Seq::empty(),
        },
        None => Seq::empty(),
    }
}

/// The match that a record tells of, where it tells of one.
pub open spec fn hit_of(v: JsonView) -> Option<HitView> {
    if text_member(v, "type"@) == Some("match"@) {
        Some(
            HitView {
                file: data_text(v, "path"@, "text"@),
                line: match v.member2("data"@, "line_number"@) {
                    Some(n) => nat_or(n.natural(), 0),
                    None => 0,
                },
                text: trim_of(data_text(v, "lines"@, "text"@)),
            },
        )
    } else {
        None
    }
}

/// The line that a record tells of; 0 where it tells of none.
pub open spec fn line_told(v: JsonView) -> nat {
    match v.member2("data"@, "line_number"@) {
        Some(JsonView::PosInt(n)) => n as nat,
        _ => 0,
    }
}

/// A text of a record's data is told as it stands there.
pub proof fn lemma_data_told(v: JsonView, a: Seq<char>, b: Seq<char>, text: Seq<char>)
    requires
        v.member("data"@) is Some,
        v.member("data"@)->0.member(a) is Some,
        v.member("data"@)->0.member(a)->0.member(b) == Some(JsonView::Str(text)),
    ensures
        data_text(v, a, b) == text,
{
}

/// A match of ripgrep.
pub struct Hit {
    pub file: String,
    pub line: u64,
    pub text: String,
}

impl View for Hit {
    type V = HitView;

    open spec fn view(&self) -> HitView {
        HitView { file: self.file@, line: self.line as nat, text: self.text@ }
    }
}

/// The text of the member `b` of the member `a` of the data of a record.
fn text_in_data(v: &Json, a: &str, b: &str) -> (r: String)
    ensures
        r@ == data_text(v@, a@, b@),
{
    match v.get("data") {
        Some(data) => match data.get2(a, b) {
            Some(t) => match t.as_str() {
                Some(s) => s.to_owned(),
                None => String::new(),
            },
            None => String::new(),
        },
        None => String::new(),
    }
}

/// The match that a record tells of, where it tells of one.
pub fn read_hit(v: &Json) -> (r: Option<Hit>)
    ensures
        match r {
            Some(h) => hit_of(v@) == Some(h@),
            None => hit_of(v@) is None,
        },
{
    let is_match = match v.text_member("type") {
        Some(t) => same_text(t, "match"),
        None => false,
    };
    if !is_match {
        return None;
    }
    let line: u64 = match v.get2("data", "line_number") {
        Some(n) => match n.as_u64() {
            Some(k) => k,
            None => 0,
        },
        None => 0,
    };
    let text = text_in_data(v, "lines", "text");
    Some(
        Hit {
            file: text_in_data(v, "path", "text"),
            line,
            text: text_of(trim(&chars_of(text.as_str()))),
        },
    )
}

/// The `sorry` that a match is, unless it stands in a comment. Its line is a
/// number of 32 bits, and not 0.
pub open spec fn sorry_of(v: JsonView) -> Option<SorryLocationView> {
    match hit_of(v) {
        Some(h) => {
            let start = trim_start_of(h.text);
            if h.file.len() == 0 || h.line as u32 == 0 || starts_with_of(start, "--"@)
                || starts_with_of(start, "/-"@) {
                None
            } else {
                Some(
                    SorryLocationView {
                        file: h.file,
                        line: h.line as u32,
                        text: h.text,
                        decl: None,
                        goal: None,
                    },
                )
            }
        },
        None => None,
    }
}

/// The `sorry`s that some records tell of.
pub open spec fn sorries_of(records: Seq<JsonView>) -> Seq<SorryLocationView> {
    records.filter_map(|v: JsonView| sorry_of(v))
}

/// Each match in a file, on a line that is not 0, is a `sorry` that is told, with its
/// file, its line and its text without the white space around it, unless that text
/// begins with `--` or `/-`. They stand in the order of the matches.
pub proof fn lemma_sorries_told(records: Seq<JsonView>)
    ensures
        sorries_of(records) == records.filter(
            |v: JsonView|
                {
                    let text = trim_of(data_text(v, "lines"@, "text"@));
                    &&& text_member(v, "type"@) == Some("match"@)
                    &&& data_text(v, "path"@, "text"@).len() > 0
                    &&& line_told(v) as u32 != 0
                    &&& !(text.len() >= 2 && text[0] == '-' && text[1] == '-')
                    &&& !(text.len() >= 2 && text[0] == '/' && text[1] == '-')
                },
        ).map_values(
            |v: JsonView|
                SorryLocationView {
                    file: data_text(v, "path"@, "text"@),
                    line: line_told(v) as u32,
                    text: trim_of(data_text(v, "lines"@, "text"@)),
                    decl: None,
                    goal: None,
                },
        ),
{
    let keep = |v: JsonView|
        {
            let text = trim_of(data_text(v, "lines"@, "text"@));
            &&& text_member(v, "type"@) == Some("match"@)
            &&& data_text(v, "path"@, "text"@).len() > 0
            &&& line_told(v) as u32 != 0
            &&& !(text.len() >= 2 && text[0] == '-' && text[1] == '-')
            &&& !(text.len() >= 2 && text[0] == '/' && text[1] == '-')
        };
    let image = |v: JsonView|
        SorryLocationView {
            file: data_text(v, "path"@, "text"@),
            line: line_told(v) as u32,
            text: trim_of(data_text(v, "lines"@, "text"@)),
            decl: None,
            goal: None,
        };
    let f = |v: JsonView| sorry_of(v);
    reveal_strlit("--");
    reveal_strlit("/-");
    assert forall|v: JsonView| #[trigger]
        f(v) == if keep(v) {
            Some(image(v))
        } else {
            None
        } by {
        let text = trim_of(data_text(v, "lines"@, "text"@));
        lemma_trimmed(data_text(v, "lines"@, "text"@));
        assert(trim_start_of(text) == text);
        assert(starts_with_of(text, "--"@) <==> text.len() >= 2 && text[0] == '-' && text[1]
            == '-') by {
            if text.len() >= 2 && text[0] == '-' && text[1] == '-' {
                assert(text.take(2) =~= "--"@);
            } else if starts_with_of(text, "--"@) {
                assert(text.take(2)[0] == '-' && text.take(2)[1] == '-');
            }
        }
        assert(starts_with_of(text, "/-"@) <==> text.len() >= 2 && text[0] == '/' && text[1]
            == '-') by {
            if text.len() >= 2 && text[0] == '/' && text[1] == '-' {
                assert(text.take(2) =~= "/-"@);
            } else if starts_with_of(text, "/-"@) {
                assert(text.take(2)[0] == '/' && text.take(2)[1] == '-');
            }
        }
    }
    lemma_filter_map_is(records, f, keep, image);
}

/// The `sorry`s that some records tell of.
pub fn sorries_in(records: &[Json]) -> (r: Vec<SorryLocation>)
    ensures
        all_views(r@) == sorries_of(views(records@)),
{
    let ghost all = views(records@);
    let ghost f = |v: JsonView| sorry_of(v);
    let mut out: Vec<SorryLocation> = Vec::new();
    proof {
        assert(all_views(out@) =~= all.take(0).filter_map(f));
    }
    for i in 0..records.len()
        invariant
            all == views(records@),
            f == (|v: JsonView| sorry_of(v)),
            all_views(out@) == all.take(i as int).filter_map(f),
    {
        proof {
            lemma_filter_map_next(all, f, i as int);
            assert(all[i as int] == records@[i as int]@);
        }
        if let Some(h) = read_hit(&records[i]) {
            let line: u32 = h.line as u32;
            let start = text_of(trim_start(&chars_of(h.text.as_str())));
            let comment = str_starts_with(start.as_str(), "--") || str_starts_with(
                start.as_str(),
                "/-",
            );
            if h.file.as_str().unicode_len() > 0 && line != 0 && !comment {
                let ghost before = out@;
                out.push(
                    SorryLocation { file: h.file, line, text: h.text, decl: None, goal: None },
                );
                proof {
                    lemma_views_push(before, out@.last());
                }
            }
        }
    }
    proof {
        lemma_take_all(all);
    }
    out
}

/// A match in words: the file, the line and the text.
pub open spec fn complaint_of(v: JsonView) -> Option<Seq<char>> {
    match hit_of(v) {
        Some(h) => if h.file.len() > 0 && h.line > 0 {
            Some(h.file + ":"@ + decimal_of(h.line) + ": "@ + h.text)
        } else {
            None
        },
        None => None,
    }
}

/// The matches that some records tell of, in words.
pub open spec fn complaints_of(records: Seq<JsonView>) -> Seq<Seq<char>> {
    records.filter_map(|v: JsonView| complaint_of(v))
}

/// Each match in a file, on a line that is not 0, is told in words: the file, the
/// line and the text without the white space around it. They stand in the order of
/// the matches.
pub proof fn lemma_complaints_told(records: Seq<JsonView>)
    ensures
        complaints_of(records) == records.filter(
            |v: JsonView|
                text_member(v, "type"@) == Some("match"@) && data_text(
                    v,
                    "path"@,
                    "text"@,
                ).len() > 0 && line_told(v) > 0,
        ).map_values(
            |v: JsonView|
                data_text(v, "path"@, "text"@) + ":"@ + decimal_of(line_told(v)) + ": "@ + trim_of(
                    data_text(v, "lines"@, "text"@),
                ),
        ),
{
    let keep = |v: JsonView|
        text_member(v, "type"@) == Some("match"@) && data_text(v, "path"@, "text"@).len() > 0
            && line_told(v) > 0;
    let image = |v: JsonView|
        data_text(v, "path"@, "text"@) + ":"@ + decimal_of(line_told(v)) + ": "@ + trim_of(
            data_text(v, "lines"@, "text"@),
        );
    lemma_filter_map_is(records, |v: JsonView| complaint_of(v), keep, image);
}

/// The matches that some records tell of, in words.
pub fn complaints_in(records: &[Json]) -> (r: Vec<String>)
    ensures
        texts(r@) == complaints_of(views(records@)),
{
    let ghost all = views(records@);
    let ghost f = |v: JsonView| complaint_of(v);
    let mut out: Vec<String> = Vec::new();
    proof {
        assert(texts(out@) =~= all.take(0).filter_map(f));
    }
    for i in 0..records.len()
        invariant
            all == views(records@),
            f == (|v: JsonView| complaint_of(v)),
            texts(out@) == all.take(i as int).filter_map(f),
    {
        proof {
            lemma_filter_map_next(all, f, i as int);
            assert(all[i as int] == records@[i as int]@);
        }
        if let Some(h) = read_hit(&records[i]) {
            if h.file.as_str().unicode_len() > 0 && h.line > 0 {
                let mut s = glue(h.file.as_str(), ":");
                s.append(decimal(h.line).as_str());
                s.append(": ");
                s.append(h.text.as_str());
                let ghost before = out@;
                out.push(s);
                proof {
                    assert(texts(out@) =~= texts(before).push(s@));
                }
            }
        }
    }
    proof {
        lemma_take_all(all);
    }
    out
}

// ---------------------------------------------------------------------------
// The goals of the sorries
// ---------------------------------------------------------------------------

/// A `sorry` with its goals.
pub open spec fn with_goal(s: SorryLocationView, goals: Seq<Seq<char>>) -> SorryLocationView {
    if goals.len() == 0 {
        s
    } else {
        SorryLocationView { goal: Some(join_of(goals, "\n---\n"@)), ..s }
    }
}

/// The column (from 0, in bytes) of the word `sorry` in line `line` (from 1) of
/// a file.
pub open spec fn sorry_column(content: Seq<char>, line: u32) -> Option<u32> {
    let lines = lines_of(content);
    if before_of(line) >= lines.len() {
        None
    } else {
        let text = lines[before_of(line) as int];
        match find_of(text, "sorry"@) {
            Some(i) => Some(byte_len(text.take(i)) as u32),
            None => None,
        }
    }
}

/// The column (from 0, in bytes) of the word `sorry` in line `line` (from 1) of
/// a file.
pub fn find_sorry(content: &str, line: u32) -> (r: Option<u32>)
    ensures
        r == sorry_column(content@, line),
{
    let lines = lines(content);
    let n: usize = number_before(line) as usize;
    proof {
        assert(texts(lines@).len() == lines@.len());
    }
    if n >= lines.len() {
        return None;
    }
    let cs = chars_of(lines[n].as_str());
    proof {
        assert(texts(lines@)[n as int] == cs@);
    }
    match find(&cs, &chars_of("sorry")) {
        Some(i) => {
            let head = slice_subrange(&cs, 0, i);
            proof {
                assert(head@ =~= cs@.take(i as int));
            }
            Some(chars_bytes(head) as u32)
        },
        None => None,
    }
}

/// What `lean_project_health` comes to.
pub type HealthSaid = Result<ProjectHealthResultView, Seq<char>>;

/// What the scan found, apart from the `sorry`s.
pub struct ScanView {
    pub file_count: u32,
    pub errors: Seq<Seq<char>>,
}

/// After the goals of a `sorry` came, or not.
pub open spec fn sorry_goals(scan: ScanView, sorries: Seq<SorryLocationView>, i: nat) -> Waiting<
    HealthSaid,
>
    decreases sorries.len() - i, 0nat,
{
    |r: ReplyView|
        if i < sorries.len() {
            match r {
                ReplyView::Texts(goals) => enrich_from(
                    scan,
                    sorries.update(i as int, with_goal(sorries[i as int], goals)),
                    i + 1,
                ),
                _ => enrich_from(scan, sorries, i + 1),
            }
        } else {
            health_done(scan, sorries)
        }
}

/// After the content of a `sorry`'s file came, or not.
pub open spec fn sorry_read(scan: ScanView, sorries: Seq<SorryLocationView>, i: nat) -> Waiting<
    HealthSaid,
>
    decreases sorries.len() - i, 1nat,
{
    |r: ReplyView|
        if i < sorries.len() {
            match r {
                ReplyView::Text(content) => match sorry_column(content, sorries[i as int].line) {
                    Some(column) => Dialogue::Ask(
                        RequestView::Goal {
                            path: sorries[i as int].file,
                            line: before_of(sorries[i as int].line),
                            column,
                        },
                        sorry_goals(scan, sorries, i),
                    ),
                    None => enrich_from(scan, sorries, i + 1),
                },
                _ => enrich_from(scan, sorries, i + 1),
            }
        } else {
            health_done(scan, sorries)
        }
}

/// After the file of a `sorry` was opened, or not.
pub open spec fn sorry_opened(scan: ScanView, sorries: Seq<SorryLocationView>, i: nat) -> Waiting<
    HealthSaid,
>
    decreases sorries.len() - i, 2nat,
{
    |r: ReplyView|
        if i < sorries.len() {
            if r is Done {
                Dialogue::Ask(
                    RequestView::FileContent { path: sorries[i as int].file },
                    sorry_read(scan, sorries, i),
                )
            } else {
                enrich_from(scan, sorries, i + 1)
            }
        } else {
            health_done(scan, sorries)
        }
}

/// Looks for the goals of the `sorry`s from number `i` on. Where they cannot be
/// had, the `sorry` stays as it is.
pub open spec fn enrich_from(scan: ScanView, sorries: Seq<SorryLocationView>, i: nat) -> Dialogue<
    HealthSaid,
>
    decreases sorries.len() - i, 3nat,
{
    if i < sorries.len() {
        Dialogue::Ask(
            RequestView::OpenFile { path: sorries[i as int].file },
            sorry_opened(scan, sorries, i),
        )
    } else {
        health_done(scan, sorries)
    }
}

/// The end of the scan.
pub open spec fn health_done(scan: ScanView, sorries: Seq<SorryLocationView>) -> Dialogue<
    HealthSaid,
> {
    Dialogue::Finish(
        Ok(
            ProjectHealthResultView {
                file_count: scan.file_count,
                sorries,
                errors: scan.errors,
                success: true,
            },
        ),
    )
}

// ---------------------------------------------------------------------------
// The tool
// ---------------------------------------------------------------------------

/// What follows the scan: the goals, where they are wanted.
pub open spec fn scanned(
    scan: ScanView,
    sorries: Seq<SorryLocationView>,
    with_goals: bool,
) -> Dialogue<HealthSaid> {
    if with_goals {
        enrich_from(scan, sorries, 0)
    } else {
        health_done(scan, sorries)
    }
}

/// After the search for failed checks and errors.
pub open spec fn errors_found(
    file_count: u32,
    sorries: Seq<SorryLocationView>,
    with_goals: bool,
) -> Waiting<HealthSaid> {
    |r: ReplyView|
        match rg_said(r, "finding errors"@) {
            Ok(out) => scanned(
                ScanView { file_count, errors: complaints_of(records_of(out)) },
                sorries,
                with_goals,
            ),
            Err(m) => Dialogue::Finish(Err(m)),
        }
}

/// After the search for `sorry`s.
pub open spec fn sorries_found(file_count: u32, with_goals: bool) -> Waiting<HealthSaid> {
    |r: ReplyView|
        match rg_said(r, "finding sorries"@) {
            Ok(out) => Dialogue::Ask(
                rg_request("#check_failure|error"@),
                errors_found(file_count, sorries_of(records_of(out)), with_goals),
            ),
            Err(m) => Dialogue::Finish(Err(m)),
        }
}

/// After the files were listed.
pub open spec fn files_listed(with_goals: bool) -> Waiting<HealthSaid> {
    |r: ReplyView|
        match rg_said(r, "counting files"@) {
            Ok(out) => {
                let file_count = filled_lines(out).len() as u32;
                if file_count > 0 {
                    Dialogue::Ask(
                        rg_request(r"\bsorry\b"@),
                        sorries_found(file_count, with_goals),
                    )
                } else {
                    scanned(ScanView { file_count, errors: Seq::empty() }, Seq::empty(), with_goals)
                }
            },
            Err(m) => Dialogue::Finish(Err(m)),
        }
}

/// A search of ripgrep in the project's Lean files, with its matches in JSON.
pub open spec fn rg_request(pattern: Seq<char>) -> RequestView {
    RequestView::RunCommand {
        program: "rg"@,
        args: seq!["--json"@, "--type"@, "lean"@, "--no-heading"@, pattern],
    }
}

/// The whole of `lean_project_health`: counts the Lean files, looks for `sorry`
/// and for failed checks and errors in them, and, where they are wanted, for the
/// goals of each `sorry`.
pub open spec fn health_dialogue(with_goals: bool) -> Dialogue<HealthSaid> {
    Dialogue::Ask(
        RequestView::RunCommand {
            program: "rg"@,
            args: seq!["--type"@, "lean"@, "--files"@],
        },
        files_listed(with_goals),
    )
}

/// `lean_project_health` at work.
pub enum HealthCall {
    /// Waits for the list of files.
    Listing { with_goals: bool },
    /// Waits for the `sorry`s.
    FindingSorries { file_count: u32, with_goals: bool },
    /// Waits for the failed checks and errors.
    FindingErrors { file_count: u32, sorries: Vec<SorryLocation>, with_goals: bool },
    /// Waits until the file of a `sorry` is open.
    Opening { scan: Scan, sorries: Vec<SorryLocation>, index: usize },
    /// Waits for the content of a `sorry`'s file.
    Reading { scan: Scan, sorries: Vec<SorryLocation>, index: usize },
    /// Waits for the goals of a `sorry`.
    Asking { scan: Scan, sorries: Vec<SorryLocation>, index: usize },
}

/// What the scan found, apart from the `sorry`s.
pub struct Scan {
    pub file_count: u32,
    pub errors: Vec<String>,
}

impl View for Scan {
    type V = ScanView;

    open spec fn view(&self) -> ScanView {
        ScanView { file_count: self.file_count, errors: texts(self.errors@) }
    }
}

impl Waits for HealthCall {
    type Out = Result<ProjectHealthResult, String>;

    type Said = HealthSaid;

    open spec fn said(o: Self::Out) -> HealthSaid {
        match o {
            Ok(h) => Ok(h@),
            Err(m) => Err(m@),
        }
    }

    open spec fn valid(self) -> bool {
        match self {
            HealthCall::Opening { sorries, index, .. } => index < sorries@.len(),
            HealthCall::Reading { sorries, index, .. } => index < sorries@.len(),
            HealthCall::Asking { sorries, index, .. } => index < sorries@.len(),
            _ => true,
        }
    }

    open spec fn waiting(self) -> Waiting<HealthSaid> {
        match self {
            HealthCall::Listing { with_goals } => files_listed(with_goals),
            HealthCall::FindingSorries { file_count, with_goals } => sorries_found(
                file_count,
                with_goals,
            ),
            HealthCall::FindingErrors { file_count, sorries, with_goals } => errors_found(
                file_count,
                all_views(sorries@),
                with_goals,
            ),
            HealthCall::Opening { scan, sorries, index } => sorry_opened(
                scan@,
                all_views(sorries@),
                index as nat,
            ),
            HealthCall::Reading { scan, sorries, index } => sorry_read(
                scan@,
                all_views(sorries@),
                index as nat,
            ),
            HealthCall::Asking { scan, sorries, index } => sorry_goals(
                scan@,
                all_views(sorries@),
                index as nat,
            ),
        }
    }

    open spec fn admits(self, r: ReplyView) -> bool {
        true
    }
}

/// A search of ripgrep in the project's Lean files, with its matches in JSON.
fn rg(pattern: &str) -> (q: Request)
    ensures
        q@ == rg_request(pattern@),
{
    let args: Vec<&str> = vec!["--json", "--type", "lean", "--no-heading", pattern];
    proof {
        assert(strs(args@) =~= seq![
            "--json"@,
            "--type"@,
            "lean"@,
            "--no-heading"@,
            pattern@,
        ]);
    }
    Request::RunCommand { program: "rg".to_owned(), args: owned(args) }
}

impl HealthCall {
    /// The end of the scan.
    fn finish(scan: Scan, sorries: Vec<SorryLocation>) -> (t: Turn<
        HealthCall,
        Result<ProjectHealthResult, String>,
    >)
        ensures
            begins(t, health_done(scan@, all_views(sorries@))),
    {
        Turn::Done(
            Ok(
                ProjectHealthResult {
                    file_count: scan.file_count,
                    sorries,
                    errors: scan.errors,
                    success: true,
                },
            ),
        )
    }

    /// Looks for the goals of the next `sorry`.
    fn enrich(scan: Scan, sorries: Vec<SorryLocation>, index: usize) -> (t: Turn<
        HealthCall,
        Result<ProjectHealthResult, String>,
    >)
        requires
            index <= sorries@.len(),
        ensures
            begins(t, enrich_from(scan@, all_views(sorries@), index as nat)),
    {
        if index < sorries.len() {
            let path = sorries[index].file.clone();
            Turn::Ask(Request::OpenFile { path }, HealthCall::Opening { scan, sorries, index })
        } else {
            HealthCall::finish(scan, sorries)
        }
    }

    /// What follows the scan.
    fn scanned(scan: Scan, sorries: Vec<SorryLocation>, with_goals: bool) -> (t: Turn<
        HealthCall,
        Result<ProjectHealthResult, String>,
    >)
        ensures
            begins(t, scanned(scan@, all_views(sorries@), with_goals)),
    {
        if with_goals {
            HealthCall::enrich(scan, sorries, 0)
        } else {
            HealthCall::finish(scan, sorries)
        }
    }
}

impl Call for HealthCall {
    fn accepts(&self, reply: &Reply) -> (r: bool) {
        true
    }

    fn resume(self, reply: Reply) -> (t: Turn<Self, Self::Out>) {
        match self {
            HealthCall::Listing { with_goals } => match rg_output(reply, "counting files") {
                Ok(out) => {
                    let file_count: u32 = count_files(out.as_str());
                    if file_count > 0 {
                        Turn::Ask(
                            rg(r"\bsorry\b"),
                            HealthCall::FindingSorries { file_count, with_goals },
                        )
                    } else {
                        let sorries: Vec<SorryLocation> = Vec::new();
                        let errors: Vec<String> = Vec::new();
                        proof {
                            assert(all_views(sorries@) =~= Seq::empty());
                            assert(texts(errors@) =~= Seq::empty());
                        }
                        HealthCall::scanned(Scan { file_count, errors }, sorries, with_goals)
                    }
                },
                Err(m) => Turn::Done(Err(m)),
            },
            HealthCall::FindingSorries { file_count, with_goals } => match rg_output(
                reply,
                "finding sorries",
            ) {
                Ok(out) => {
                    let sorries = sorries_in(&records(out.as_str()));
                    Turn::Ask(
                        rg("#check_failure|error"),
                        HealthCall::FindingErrors { file_count, sorries, with_goals },
                    )
                },
                Err(m) => Turn::Done(Err(m)),
            },
            HealthCall::FindingErrors { file_count, sorries, with_goals } => match rg_output(
                reply,
                "finding errors",
            ) {
                Ok(out) => {
                    let errors = complaints_in(&records(out.as_str()));
                    HealthCall::scanned(Scan { file_count, errors }, sorries, with_goals)
                },
                Err(m) => Turn::Done(Err(m)),
            },
            HealthCall::Opening { scan, sorries, index } => {
                assert(index < sorries.len());
                if let Reply::Done = reply {
                    let path = sorries[index].file.clone();
                    Turn::Ask(
                        Request::FileContent { path },
                        HealthCall::Reading { scan, sorries, index },
                    )
                } else {
                    HealthCall::enrich(scan, sorries, index + 1)
                }
            },
            HealthCall::Reading { scan, sorries, index } => {
                assert(index < sorries.len());
                let column = match reply {
                    Reply::Text(content) => find_sorry(content.as_str(), sorries[index].line),
                    _ => None,
                };
                match column {
                    Some(column) => {
                        let q = Request::Goal {
                            path: sorries[index].file.clone(),
                            line: number_before(sorries[index].line),
                            column,
                        };
                        Turn::Ask(q, HealthCall::Asking { scan, sorries, index })
                    },
                    None => HealthCall::enrich(scan, sorries, index + 1),
                }
            },
            HealthCall::Asking { scan, sorries, index } => {
                assert(index < sorries.len());
                let mut sorries = sorries;
                let ghost before = all_views(sorries@);
                if let Reply::Texts(goals) = reply {
                    proof {
                        assert(texts(goals@).len() == goals@.len());
                        assert(before.update(index as int, before[index as int]) =~= before);
                    }
                    if goals.len() > 0 {
                        let goal = join(&goals, "\n---\n");
                        let s = &sorries[index];
                        let decl = match &s.decl {
                            Some(d) => Some(d.clone()),
                            None => None,
                        };
                        let told = SorryLocation {
                            file: s.file.clone(),
                            line: s.line,
                            text: s.text.clone(),
                            decl,
                            goal: Some(goal),
                        };
                        sorries.set(index, told);
                        proof {
                            assert(all_views(sorries@) =~= before.update(index as int, told@));
                        }
                    }
                }
                HealthCall::enrich(scan, sorries, index + 1)
            },
        }
    }
}

/// What is unfinished in the project: every `sorry`, with its goals where a
/// language server is there to tell them and they are wanted, and every failed
/// check.
pub fn handle_project_health(has_client: bool, include_goals: bool) -> (t: Turn<
    HealthCall,
    Result<ProjectHealthResult, String>,
>)
    ensures
        begins(t, health_dialogue(include_goals && has_client)),
{
    let args: Vec<&str> = vec!["--type", "lean", "--files"];
    proof {
        assert(strs(args@) =~= seq!["--type"@, "lean"@, "--files"@]);
    }
    Turn::Ask(
        Request::RunCommand { program: "rg".to_owned(), args: owned(args) },
        HealthCall::Listing { with_goals: include_goals && has_client },
    )
}

} // verus!
