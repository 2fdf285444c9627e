//! `lean_verify`: the axioms that a theorem depends on.
use crate::error::{result_view, ErrorView, LeanToolError};
use crate::json::{
    int_member, items_member, nat_or, text_member, text_or_empty, uint_at, views, Json, JsonView,
};
use crate::lists::{
    lemma_filter_map_is, lemma_filter_map_next, lemma_filter_next, lemma_take_all, lemma_views_push,
};
use crate::models::{
    all_views, opt_text, SourceWarning, SourceWarningView, VerifyResult, VerifyResultView,
};
use crate::patterns::{find_group, first_group};
use crate::position::{plain_range, plain_range_of};
use crate::protocol::{
    begins, followed, lemma_followed, lsp_error, lsp_failure, name_texts, waiting_first, Call,
    Dialogue, Reply, ReplyView, Request, RequestView, Turn, Waiting, Waits,
};
use crate::text::{
    chars_of, glue, glue3, is_space, join, join_of, lemma_trimmed, lines, lines_of, replace,
    replace_of, split, split_of, strs, text_of, texts, trim, trim_of,
};
use crate::tools::file::{file_dialogue, open_and_read, FileRead, ReadSaid};
use vstd::prelude::*;
use vstd::string::*;

verus! {

// ---------------------------------------------------------------------------
// Axioms
// ---------------------------------------------------------------------------

/// A message that lists axioms; the list is the first group.
pub const AXIOMS_PATTERN: &'static str = r"depends on axioms:\s*\[(.+?)\]";

/// The severity of a diagnostic.
pub open spec fn severity_of(d: JsonView) -> Option<int> {
    int_member(d, "severity"@)
}

/// Whether a diagnostic has a severity.
fn has_severity(d: &Json, severity: i64) -> (r: bool)
    ensures
        r == (severity_of(d@) == Some(severity as int)),
{
    match d.int_member("severity") {
        Some(n) => n == severity,
        None => false,
    }
}

/// The list of axioms that a diagnostic tells, where it is an information.
pub open spec fn axiom_list(d: JsonView) -> Option<Seq<char>> {
    if severity_of(d) == Some(3int) {
        first_group(
            AXIOMS_PATTERN@,
            replace_of(text_or_empty(text_member(d, "message"@)), "\n"@, " "@),
            1,
        )
    } else {
        None
    }
}

/// A name in a list, without white space around it; none where nothing is left.
pub open spec fn axiom_name(part: Seq<char>) -> Option<Seq<char>> {
    if trim_of(part).len() > 0 {
        Some(trim_of(part))
    } else {
        None
    }
}

/// The names in a list that commas separate.
pub open spec fn names_in(list: Seq<char>) -> Seq<Seq<char>> {
    split_of(list, ',').filter_map(|p: Seq<char>| axiom_name(p))
}

/// The names in some lists, one after the other.
pub open spec fn names_in_all(lists: Seq<Option<Seq<char>>>) -> Seq<Seq<char>>
    decreases lists.len(),
{
    if lists.len() == 0 {
        Seq::empty()
    } else {
        match lists.last() {
            Some(list) => names_in_all(lists.drop_last()) + names_in(list),
            None => names_in_all(lists.drop_last()),
        }
    }
}

/// The lists of axioms that some diagnostics tell.
pub open spec fn axiom_lists(ds: Seq<JsonView>) -> Seq<Option<Seq<char>>> {
    ds.map_values(|d: JsonView| axiom_list(d))
}

/// Each part of a list that commas separate is told, trimmed and in its place,
/// unless it is blank.
pub proof fn lemma_names_told(list: Seq<char>)
    ensures
        names_in(list) == split_of(list, ',').filter(
            |p: Seq<char>| exists|k: int| 0 <= k < p.len() && !is_space(#[trigger] p[k]),
        ).map_values(|p: Seq<char>| trim_of(p)),
{
    let keep = |p: Seq<char>| exists|k: int| 0 <= k < p.len() && !is_space(#[trigger] p[k]);
    let f = |p: Seq<char>| axiom_name(p);
    let image = |p: Seq<char>| trim_of(p);
    assert forall|p: Seq<char>| #[trigger]
        f(p) == if keep(p) {
            Some(image(p))
        } else {
            None
        } by {
        lemma_trimmed(p);
    }
    lemma_filter_map_is(split_of(list, ','), f, keep, image);
}

/// Appends the names in a list that commas separate.
fn add_names(out: &mut Vec<String>, list: &str)
    ensures
        texts(final(out)@) == texts(old(out)@) + names_in(list@),
{
    let ghost start = texts(out@);
    let parts = split(list, ',');
    let ghost all = split_of(list@, ',');
    let ghost f = |p: Seq<char>| axiom_name(p);
    proof {
        assert(start + all.take(0).filter_map(f) =~= start);
    }
    for i in 0..parts.len()
        invariant
            texts(parts@) == all,
            f == (|p: Seq<char>| axiom_name(p)),
            texts(out@) == start + all.take(i as int).filter_map(f),
    {
        proof {
            lemma_filter_map_next(all, f, i as int);
            assert(all[i as int] == parts@[i as int]@);
        }
        let name = text_of(trim(&chars_of(parts[i].as_str())));
        if name.as_str().unicode_len() > 0 {
            let ghost before = out@;
            out.push(name);
            proof {
                assert(texts(out@) =~= texts(before).push(name@));
                assert(start + all.take(i as int).filter_map(f).push(name@) =~= (start + all.take(
                    i as int,
                ).filter_map(f)).push(name@));
            }
        }
    }
    proof {
        lemma_take_all(all);
    }
}

/// The names in some lists, one after the other.
pub fn axioms_in_lists(lists: &[Option<String>]) -> (r: Vec<String>)
    ensures
        texts(r@) == names_in_all(name_texts(lists@)),
{
    let ghost all = name_texts(lists@);
    let mut out: Vec<String> = Vec::new();
    proof {
        assert(texts(out@) =~= Seq::empty());
    }
    for i in 0..lists.len()
        invariant
            all == name_texts(lists@),
            texts(out@) == names_in_all(all.take(i as int)),
    {
        proof {
            assert(all.take(i + 1).drop_last() =~= all.take(i as int));
            assert(all.take(i + 1).last() == opt_text(lists@[i as int]));
        }
        if let Some(list) = &lists[i] {
            add_names(&mut out, list.as_str());
        }
    }
    proof {
        lemma_take_all(all);
    }
    out
}

/// The list of axioms that a diagnostic tells, where it is an information.
pub fn find_axiom_list(d: &Json) -> (r: Option<String>)
    ensures
        opt_text(r) == axiom_list(d@),
{
    if !has_severity(d, 3) {
        return None;
    }
    let message = match d.text_member("message") {
        Some(s) => s.to_owned(),
        None => String::new(),
    };
    proof {
        reveal_strlit("\n");
    }
    find_group(AXIOMS_PATTERN, replace(message.as_str(), "\n", " ").as_str(), 1)
}

/// The axioms that some diagnostics tell.
pub fn parse_axioms(diagnostics: &[Json]) -> (r: Vec<String>)
    ensures
        texts(r@) == names_in_all(axiom_lists(views(diagnostics@))),
{
    let ghost all = axiom_lists(views(diagnostics@));
    let mut lists: Vec<Option<String>> = Vec::new();
    for i in 0..diagnostics.len()
        invariant
            all == axiom_lists(views(diagnostics@)),
            name_texts(lists@) == all.take(i as int),
    {
        let ghost before = lists@;
        lists.push(find_axiom_list(&diagnostics[i]));
        proof {
            assert(name_texts(lists@) =~= name_texts(before).push(all[i as int]));
            assert(all.take(i + 1) =~= all.take(i as int).push(all[i as int]));
        }
    }
    proof {
        lemma_take_all(all);
    }
    axioms_in_lists(&lists)
}

// ---------------------------------------------------------------------------
// Errors
// ---------------------------------------------------------------------------

/// The message of a diagnostic, where it is an error.
pub open spec fn error_message(d: JsonView) -> Option<Seq<char>> {
    if severity_of(d) == Some(1int) {
        text_member(d, "message"@)
    } else {
        None
    }
}

/// The messages of the errors among some diagnostics, joined; none where there
/// is no error.
pub open spec fn errors_joined(ds: Seq<JsonView>) -> Option<Seq<char>> {
    let messages = ds.filter_map(|d: JsonView| error_message(d));
    if messages.len() == 0 {
        None
    } else {
        Some(join_of(messages, "; "@))
    }
}

/// The messages of the errors among some diagnostics, joined; none where there
/// is no error.
pub fn check_axiom_errors(diagnostics: &[Json]) -> (r: Option<String>)
    ensures
        opt_text(r) == errors_joined(views(diagnostics@)),
{
    let ghost ds = views(diagnostics@);
    let ghost f = |d: JsonView| error_message(d);
    let mut messages: Vec<String> = Vec::new();
    proof {
        assert(texts(messages@) =~= ds.take(0).filter_map(f));
    }
    for i in 0..diagnostics.len()
        invariant
            ds == views(diagnostics@),
            f == (|d: JsonView| error_message(d)),
            texts(messages@) == ds.take(i as int).filter_map(f),
    {
        proof {
            lemma_filter_map_next(ds, f, i as int);
            assert(ds[i as int] == diagnostics@[i as int]@);
        }
        if has_severity(&diagnostics[i], 1) {
            if let Some(m) = diagnostics[i].text_member("message") {
                let ghost before = messages@;
                messages.push(m.to_owned());
                proof {
                    assert(texts(messages@) =~= texts(before).push(m@));
                }
            }
        }
    }
    proof {
        lemma_take_all(ds);
        assert(texts(messages@).len() == messages@.len());
    }
    if messages.len() == 0 {
        None
    } else {
        Some(join(&messages, "; "))
    }
}

/// The line (from 0) on which a diagnostic starts, as a number of 32 bits.
pub open spec fn start_line(d: JsonView) -> u32 {
    match plain_range(d) {
        Some(r) => nat_or(uint_at(r, "start"@, "line"@), 0) as u32,
        None => 0,
    }
}

/// The line (from 0) on which a diagnostic starts.
fn line_of(d: &Json) -> (r: u32)
    ensures
        r == start_line(d@),
{
    match plain_range_of(d) {
        Some(r) => match r.uint_at("start", "line") {
            Some(n) => n as u32,
            None => 0,
        },
        None => 0,
    }
}

/// The diagnostics that start before a line (from 0), or those that start on it
/// or behind it.
pub open spec fn part_of(ds: Seq<JsonView>, line: u32, behind: bool) -> Seq<JsonView> {
    ds.filter(|d: JsonView| (start_line(d) >= line) == behind)
}

/// The diagnostics that start before a line (from 0), or those that start on it
/// or behind it.
fn part(diagnostics: &[Json], line: u32, behind: bool) -> (r: Vec<Json>)
    ensures
        views(r@) == part_of(views(diagnostics@), line, behind),
{
    let mut kept: Vec<Json> = Vec::new();
    let ghost ds = views(diagnostics@);
    let ghost f = |d: JsonView| (start_line(d) >= line) == behind;
    proof {
        reveal(Seq::filter);
        assert(views(kept@) =~= ds.take(0).filter(f));
    }
    for i in 0..diagnostics.len()
        invariant
            ds == views(diagnostics@),
            f == (|d: JsonView| (start_line(d) >= line) == behind),
            views(kept@) == ds.take(i as int).filter(f),
    {
        proof {
            lemma_filter_next(ds, f, i as int);
            assert(ds[i as int] == diagnostics@[i as int]@);
        }
        if (line_of(&diagnostics[i]) >= line) == behind {
            let ghost before = kept@;
            kept.push(diagnostics[i].duplicate());
            proof {
                lemma_views_push(before, kept@.last());
            }
        }
    }
    proof {
        lemma_take_all(ds);
    }
    kept
}

/// What the diagnostics of a file with the command at its end say of the
/// theorem: where the file itself, the lines before `line` (from 0), has errors,
/// these; else where the command has errors, these; else the axioms.
pub open spec fn verdict_of(ds: Seq<JsonView>, line: u32) -> Result<Seq<Seq<char>>, ErrorView> {
    match errors_joined(part_of(ds, line, false)) {
        Some(errors) => Err(
            ErrorView::AxiomCheckFailed("File has compilation errors: "@ + errors),
        ),
        None => match errors_joined(part_of(ds, line, true)) {
            Some(errors) => Err(ErrorView::AxiomCheckFailed(errors)),
            None => Ok(names_in_all(axiom_lists(part_of(ds, line, true)))),
        },
    }
}

/// What an outcome of the check says.
pub open spec fn verdict_view(r: Result<Vec<String>, LeanToolError>) -> Result<
    Seq<Seq<char>>,
    ErrorView,
> {
    match r {
        Ok(v) => Ok(texts(v@)),
        Err(e) => Err(e@),
    }
}

/// What the diagnostics of a file with the command at its end say of the
/// theorem.
pub fn verdict(diagnostics: &[Json], line: u32) -> (r: Result<Vec<String>, LeanToolError>)
    ensures
        verdict_view(r) == verdict_of(views(diagnostics@), line),
{
    let own = part(diagnostics, line, false);
    let appended = part(diagnostics, line, true);
    if let Some(errors) = check_axiom_errors(&own) {
        return Err(
            LeanToolError::AxiomCheckFailed(
                glue("File has compilation errors: ", errors.as_str()),
            ),
        );
    }
    if let Some(errors) = check_axiom_errors(&appended) {
        return Err(LeanToolError::AxiomCheckFailed(errors));
    }
    Ok(parse_axioms(&appended))
}

// ---------------------------------------------------------------------------
// Suspicious source
// ---------------------------------------------------------------------------

/// What may affect soundness in a file's source.
pub open spec fn warning_patterns_of() -> Seq<Seq<char>> {
    seq![
        r"set_option\s+debug\."@,
        r"\bunsafe\b"@,
        r"@\[implemented_by\b"@,
        r"@\[extern\b"@,
        r"\bopaque\b"@,
        r"local\s+instance\b"@,
        r"local\s+notation\b"@,
        r"local\s+macro_rules\b"@,
        r"scoped\s+notation\b"@,
        r"scoped\s+instance\b"@,
        r"@\[csimp\b"@,
        r"import\s+Lean\.Elab\b"@,
        r"import\s+Lean\.Meta\b"@,
    ]
}

/// What may affect soundness in a file's source.
pub fn warning_patterns() -> (r: Vec<&'static str>)
    ensures
        strs(r@) == warning_patterns_of(),
{
    let r: Vec<&'static str> = vec![
        r"set_option\s+debug\.",
        r"\bunsafe\b",
        r"@\[implemented_by\b",
        r"@\[extern\b",
        r"\bopaque\b",
        r"local\s+instance\b",
        r"local\s+notation\b",
        r"local\s+macro_rules\b",
        r"scoped\s+notation\b",
        r"scoped\s+instance\b",
        r"@\[csimp\b",
        r"import\s+Lean\.Elab\b",
        r"import\s+Lean\.Meta\b",
    ];
    proof {
        assert(strs(r@) =~= warning_patterns_of());
    }
    r
}

/// What the first of some patterns that matches a line finds there.
pub open spec fn found_by(line: Seq<char>, patterns: Seq<Seq<char>>) -> Option<Seq<char>>
    decreases patterns.len(),
{
    if patterns.len() == 0 {
        None
    } else {
        match first_group(patterns[0], line, 0) {
            Some(text) => Some(text),
            None => found_by(line, patterns.skip(1)),
        }
    }
}

/// What is suspicious in each line of a text.
pub open spec fn suspicions(content: Seq<char>) -> Seq<Option<Seq<char>>> {
    lines_of(content).map_values(|l: Seq<char>| found_by(l, warning_patterns_of()))
}

/// The warnings for what was found in the lines of a file, at most one for each.
pub open spec fn warnings_of(found: Seq<Option<Seq<char>>>) -> Seq<SourceWarningView>
    decreases found.len(),
{
    if found.len() == 0 {
        Seq::empty()
    } else {
        let before = warnings_of(found.drop_last());
        match found.last() {
            Some(pattern) => before.push(
                SourceWarningView { line: found.len() as i64, pattern },
            ),
            None => before,
        }
    }
}

/// There are no more warnings than lines, and each is for a line of its own, in
/// the order of the lines.
pub proof fn lemma_one_warning_per_line(found: Seq<Option<Seq<char>>>)
    requires
        found.len() <= i64::MAX,
    ensures
        forall|i: int|
            0 <= i < warnings_of(found).len() ==> 1 <= (#[trigger] warnings_of(found)[i]).line
                <= found.len() && found[warnings_of(found)[i].line - 1] == Some(
                warnings_of(found)[i].pattern,
            ),
        forall|i: int, j: int|
            0 <= i < j < warnings_of(found).len() ==> (#[trigger] warnings_of(found)[i]).line < (
            #[trigger] warnings_of(found)[j]).line,
    decreases found.len(),
{
    if found.len() > 0 {
        lemma_one_warning_per_line(found.drop_last());
    }
}

/// The warnings for what was found in the lines of a file.
pub fn warnings_at(found: &[Option<String>]) -> (r: Vec<SourceWarning>)
    ensures
        all_views(r@) == warnings_of(name_texts(found@)),
{
    let ghost all = name_texts(found@);
    let mut out: Vec<SourceWarning> = Vec::new();
    proof {
        assert(all_views(out@) =~= Seq::empty());
    }
    for i in 0..found.len()
        invariant
            all == name_texts(found@),
            all_views(out@) == warnings_of(all.take(i as int)),
    {
        proof {
            assert(all.take(i + 1).drop_last() =~= all.take(i as int));
            assert(all.take(i + 1).last() == opt_text(found@[i as int]));
        }
        if let Some(pattern) = &found[i] {
            let ghost before = out@;
            out.push(SourceWarning { line: (i + 1) as i64, pattern: pattern.clone() });
            proof {
                lemma_views_push(before, out@.last());
            }
        }
    }
    proof {
        lemma_take_all(all);
    }
    out
}

/// What the first of some patterns that matches a line finds there.
pub fn find_suspicion(line: &str, patterns: &[&str]) -> (r: Option<String>)
    ensures
        opt_text(r) == found_by(line@, strs(patterns@)),
{
    let ghost all = strs(patterns@);
    proof {
        assert(all.skip(0) =~= all);
    }
    for i in 0..patterns.len()
        invariant
            all == strs(patterns@),
            found_by(line@, all) == found_by(line@, all.skip(i as int)),
    {
        proof {
            assert(all.skip(i as int)[0] == patterns@[i as int]@);
            assert(all.skip(i as int).skip(1) =~= all.skip(i + 1));
        }
        if let Some(text) = find_group(patterns[i], line, 0) {
            return Some(text);
        }
    }
    None
}

/// The warnings for a file's source, at most one for each line.
pub fn scan_warnings(content: &str) -> (r: Vec<SourceWarning>)
    ensures
        all_views(r@) == warnings_of(suspicions(content@)),
{
    let patterns = warning_patterns();
    let ls = lines(content);
    let ghost all = suspicions(content@);
    let mut found: Vec<Option<String>> = Vec::new();
    proof {
        assert(texts(ls@).len() == ls@.len());
    }
    for i in 0..ls.len()
        invariant
            strs(patterns@) == warning_patterns_of(),
            texts(ls@) == lines_of(content@),
            all == suspicions(content@),
            name_texts(found@) == all.take(i as int),
    {
        let ghost before = found@;
        found.push(find_suspicion(ls[i].as_str(), &patterns));
        proof {
            assert(lines_of(content@)[i as int] == ls@[i as int]@);
            assert(name_texts(found@) =~= name_texts(before).push(all[i as int]));
            assert(all.take(i + 1) =~= all.take(i as int).push(all[i as int]));
        }
    }
    proof {
        lemma_take_all(all);
    }
    warnings_at(&found)
}

// ---------------------------------------------------------------------------
// The tool
// ---------------------------------------------------------------------------

/// What `lean_verify` comes to.
pub type VerifySaid = Result<VerifyResultView, ErrorView>;

/// A file with the command at its end that prints a theorem's axioms.
pub open spec fn with_command(content: Seq<char>, theorem: Seq<char>) -> Seq<char> {
    content + ("\n#print axioms _root_."@ + theorem + "\n"@)
}

/// After the source came.
pub open spec fn source_read(axioms: Seq<Seq<char>>) -> Waiting<VerifySaid> {
    |r: ReplyView|
        Dialogue::Finish(
            Ok(
                VerifyResultView {
                    axioms,
                    warnings: match r {
                        ReplyView::Text(content) => warnings_of(suspicions(content)),
                        _ => Seq::empty(),
                    },
                },
            ),
        )
}

/// After the file was put back.
pub open spec fn verify_restored(
    path: Seq<char>,
    scan_source: bool,
    verdict: Result<Seq<Seq<char>>, ErrorView>,
) -> Waiting<VerifySaid> {
    |r: ReplyView|
        match verdict {
            Ok(axioms) => if scan_source {
                Dialogue::Ask(RequestView::ReadFile { path }, source_read(axioms))
            } else {
                Dialogue::Finish(Ok(VerifyResultView { axioms, warnings: Seq::empty() }))
            },
            Err(e) => Dialogue::Finish(Err(e)),
        }
}

/// After the diagnostics came.
pub open spec fn verify_diagnosed(
    path: Seq<char>,
    content: Seq<char>,
    scan_source: bool,
) -> Waiting<VerifySaid> {
    |r: ReplyView|
        match r {
            ReplyView::Value(raw) => {
                let ds = match items_member(raw, "diagnostics"@) {
                    Some(ds) => ds,
                    None => Seq::empty(),
                };
                Dialogue::Ask(
                    RequestView::ReplaceContent { path, content },
                    verify_restored(
                        path,
                        scan_source,
                        verdict_of(ds, lines_of(content).len() as u32),
                    ),
                )
            },
            _ => Dialogue::Ask(
                RequestView::ReplaceContent { path, content },
                verify_restored(
                    path,
                    scan_source,
                    Err(lsp_failure("get_diagnostics"@, r.trouble())),
                ),
            ),
        }
}

/// After the command was appended, or not.
pub open spec fn verify_appended(path: Seq<char>, content: Seq<char>, scan_source: bool) -> Waiting<
    VerifySaid,
> {
    |r: ReplyView|
        if r is Done {
            Dialogue::Ask(
                RequestView::Diagnostics {
                    path,
                    start_line: None,
                    end_line: None,
                    bounded: true,
                },
                verify_diagnosed(path, content, scan_source),
            )
        } else {
            Dialogue::Ask(
                RequestView::ReplaceContent { path, content },
                verify_restored(
                    path,
                    scan_source,
                    Err(lsp_failure("update_file_content"@, r.trouble())),
                ),
            )
        }
}

/// Appends the command to a file that was read.
pub open spec fn verify_within(path: Seq<char>, theorem: Seq<char>, scan_source: bool) -> spec_fn(
    ReadSaid,
) -> Dialogue<VerifySaid> {
    |res: ReadSaid|
        match res {
            Ok(content) => Dialogue::Ask(
                RequestView::ReplaceContent { path, content: with_command(content, theorem) },
                verify_appended(path, content, scan_source),
            ),
            Err(e) => Dialogue::Finish(Err(e)),
        }
}

/// The whole of `lean_verify`.
pub open spec fn verify_dialogue(
    path: Seq<char>,
    theorem: Seq<char>,
    scan_source: bool,
) -> Dialogue<VerifySaid> {
    followed(file_dialogue(path), verify_within(path, theorem, scan_source))
}

/// `lean_verify` at work.
pub enum VerifyCall {
    /// Waits for the content of the file.
    Reading { call: FileRead, path: String, theorem: String, scan_source: bool },
    /// Waits until the command is appended.
    Appending { path: String, content: String, scan_source: bool },
    /// Waits for the diagnostics.
    Diagnosing { path: String, content: String, scan_source: bool },
    /// Waits until the file is put back.
    Restoring {
        path: String,
        scan_source: bool,
        verdict: Result<Vec<String>, LeanToolError>,
    },
    /// Waits for the source.
    Scanning { axioms: Vec<String> },
}

impl Waits for VerifyCall {
    type Out = Result<VerifyResult, LeanToolError>;

    type Said = VerifySaid;

    open spec fn said(o: Self::Out) -> VerifySaid {
        result_view(o)
    }

    open spec fn valid(self) -> bool {
        true
    }

    open spec fn waiting(self) -> Waiting<VerifySaid> {
        match self {
            VerifyCall::Reading { call, path, theorem, scan_source } => waiting_first(
                call.waiting(),
                verify_within(path@, theorem@, scan_source),
            ),
            VerifyCall::Appending { path, content, scan_source } => verify_appended(
                path@,
                content@,
                scan_source,
            ),
            VerifyCall::Diagnosing { path, content, scan_source } => verify_diagnosed(
                path@,
                content@,
                scan_source,
            ),
            VerifyCall::Restoring { path, scan_source, verdict } => verify_restored(
                path@,
                scan_source,
                verdict_view(verdict),
            ),
            VerifyCall::Scanning { axioms } => source_read(texts(axioms@)),
        }
    }

    open spec fn admits(self, r: ReplyView) -> bool {
        true
    }
}

impl VerifyCall {
    /// Goes on with the reading.
    fn read(
        t: Turn<FileRead, Result<String, LeanToolError>>,
        path: String,
        theorem: String,
        scan_source: bool,
    ) -> (r: Turn<VerifyCall, Result<VerifyResult, LeanToolError>>)
        ensures
            forall|d: Dialogue<ReadSaid>| #[trigger]
                begins(t, d) ==> begins(
                    r,
                    followed(d, verify_within(path@, theorem@, scan_source)),
                ),
    {
        match t {
            Turn::Ask(q, call) => {
                proof {
                    lemma_followed(
                        q@,
                        call.waiting(),
                        verify_within(path@, theorem@, scan_source),
                    );
                }
                Turn::Ask(q, VerifyCall::Reading { call, path, theorem, scan_source })
            },
            Turn::Done(Ok(content)) => {
                let command = glue3("\n#print axioms _root_.", theorem.as_str(), "\n");
                let q = Request::ReplaceContent {
                    path: path.clone(),
                    content: glue(content.as_str(), command.as_str()),
                };
                Turn::Ask(q, VerifyCall::Appending { path, content, scan_source })
            },
            Turn::Done(Err(e)) => Turn::Done(Err(e)),
        }
    }

    /// Puts the file back.
    fn restore(
        path: String,
        content: String,
        scan_source: bool,
        verdict: Result<Vec<String>, LeanToolError>,
    ) -> (t: Turn<VerifyCall, Result<VerifyResult, LeanToolError>>)
        ensures
            begins(
                t,
                Dialogue::Ask(
                    (RequestView::ReplaceContent { path: path@, content: content@ }),
                    verify_restored(path@, scan_source, verdict_view(verdict)),
                ),
            ),
    {
        Turn::Ask(
            Request::ReplaceContent { path: path.clone(), content },
            VerifyCall::Restoring { path, scan_source, verdict },
        )
    }

    /// No warnings.
    fn unscanned(axioms: Vec<String>) -> (r: VerifyResult)
        ensures
            r@ == (VerifyResultView { axioms: texts(axioms@), warnings: Seq::empty() }),
    {
        let warnings: Vec<SourceWarning> = Vec::new();
        proof {
            assert(all_views(warnings@) =~= Seq::empty());
        }
        VerifyResult { axioms, warnings }
    }
}

impl Call for VerifyCall {
    fn accepts(&self, reply: &Reply) -> (r: bool) {
        true
    }

    fn resume(self, reply: Reply) -> (t: Turn<Self, Self::Out>) {
        match self {
            VerifyCall::Reading { call, path, theorem, scan_source } => VerifyCall::read(
                call.resume(reply),
                path,
                theorem,
                scan_source,
            ),
            VerifyCall::Appending { path, content, scan_source } => match reply.done() {
                Ok(_) => Turn::Ask(
                    Request::Diagnostics {
                        path: path.clone(),
                        start_line: None,
                        end_line: None,
                        bounded: true,
                    },
                    VerifyCall::Diagnosing { path, content, scan_source },
                ),
                Err(m) => VerifyCall::restore(
                    path,
                    content,
                    scan_source,
                    Err(lsp_error("update_file_content", m)),
                ),
            },
            VerifyCall::Diagnosing { path, content, scan_source } => match reply.value() {
                Ok(raw) => {
                    let none: Vec<Json> = Vec::new();
                    proof {
                        assert(views(none@) =~= Seq::empty());
                    }
                    let ds = match raw.items_member("diagnostics") {
                        Some(ds) => ds,
                        None => &none,
                    };
                    let count: u32 = lines(content.as_str()).len() as u32;
                    let verdict = verdict(ds, count);
                    VerifyCall::restore(path, content, scan_source, verdict)
                },
                Err(m) => VerifyCall::restore(
                    path,
                    content,
                    scan_source,
                    Err(lsp_error("get_diagnostics", m)),
                ),
            },
            VerifyCall::Restoring { path, scan_source, verdict } => match verdict {
                Ok(axioms) => if scan_source {
                    Turn::Ask(Request::ReadFile { path }, VerifyCall::Scanning { axioms })
                } else {
                    Turn::Done(Ok(VerifyCall::unscanned(axioms)))
                },
                Err(e) => Turn::Done(Err(e)),
            },
            VerifyCall::Scanning { axioms } => match reply {
                Reply::Text(content) => Turn::Done(
                    Ok(VerifyResult { axioms, warnings: scan_warnings(content.as_str()) }),
                ),
                _ => Turn::Done(Ok(VerifyCall::unscanned(axioms))),
            },
        }
    }
}

/// The axioms that a theorem depends on, and, where the source is scanned, what
/// is suspicious in it. The command that asks for the axioms stands in the file
/// only meanwhile: whatever fails then, the content is put back.
pub fn handle_verify(file_path: &str, theorem_name: &str, scan_source: bool) -> (t: Turn<
    VerifyCall,
    Result<VerifyResult, LeanToolError>,
>)
    ensures
        begins(t, verify_dialogue(file_path@, theorem_name@, scan_source)),
{
    VerifyCall::read(
        open_and_read(file_path),
        file_path.to_owned(),
        theorem_name.to_owned(),
        scan_source,
    )
}

} // verus!
