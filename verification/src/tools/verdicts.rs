//! What the tools that judge a theorem and a project tell, in terms of what they were
//! replied.
use crate::error::ErrorView;
use crate::json::{int_member, parsed_json, text_member, text_or_empty, JsonView};
use crate::lists::lemma_filter_map_is;
use crate::models::{SorryLocationView, SourceWarningView};
use crate::patterns::first_group;
use crate::position::before_of;
use crate::protocol::{ends_well, followed, lemma_ends_both, ReplyView, RequestView};
use crate::text::{
    byte_len, contains_of, find_of, is_space, join_of, lemma_find_contains, lemma_first_from,
    lemma_trimmed, lines_of, occurs_at, replace_of,
};
use crate::tools::answers::{fault, hearing, unheard, Heard};
use crate::tools::findings::list_in;
use crate::tools::lookups::{content_heard, read_fault, read_first};
use crate::tools::project_health::{
    complaints_of, enrich_from, errors_found, files_listed, filled, filled_lines, health_dialogue,
    record_of, records_of, rg_said, sorries_found, sorries_of, sorry_column, sorry_goals,
    sorry_opened, sorry_read, with_goal, HealthSaid, ScanView,
};
use crate::tools::verify::{
    axiom_list, error_message, errors_joined, found_by, lemma_one_warning_per_line, names_in,
    names_in_all, part_of, start_line, suspicions, verdict_of, verify_dialogue, warning_patterns_of,
    warnings_of, VerifySaid,
};
use vstd::prelude::*;

verus! {

// ---------------------------------------------------------------------------
// Axioms of a theorem
// ---------------------------------------------------------------------------

/// A character takes the place of another wherever that stands.
pub proof fn lemma_replaced_char(s: Seq<char>, a: char, b: char)
    ensures
        replace_of(s, seq![a], seq![b]) == s.map_values(
            |c: char|
                if c == a {
                    b
                } else {
                    c
                },
        ),
    decreases s.len(),
{
    let f = |c: char|
        if c == a {
            b
        } else {
            c
        };
    lemma_first_from(s, seq![a], 0);
    match find_of(s, seq![a]) {
        Some(i) => {
            assert(s.subrange(i, i + 1) =~= seq![a]);
            assert(s.subrange(i, i + 1)[0] == s[i]);
            assert forall|j: int| 0 <= j < i implies s[j] != a by {
                if s[j] == a {
                    assert(s.subrange(j, j + 1) =~= seq![a]);
                    assert(occurs_at(s, seq![a], j));
                }
            }
            lemma_replaced_char(s.skip(i + 1), a, b);
            assert(s.take(i) + seq![b] + s.skip(i + 1).map_values(f) =~= s.map_values(f));
        },
        None => {
            assert forall|j: int| 0 <= j < s.len() implies s[j] != a by {
                if s[j] == a {
                    assert(s.subrange(j, j + 1) =~= seq![a]);
                    assert(occurs_at(s, seq![a], j));
                }
            }
            assert(s.map_values(f) =~= s);
        },
    }
}

/// A text on one line: each line break is a blank instead.
pub open spec fn on_one_line(s: Seq<char>) -> Seq<char> {
    s.map_values(
        |c: char|
            if c == '\n' {
                ' '
            } else {
                c
            },
    )
}

/// A list of axioms is told by an information whose text, on one line, has the words
/// before it.
pub proof fn lemma_axiom_list_told(d: JsonView)
    ensures
        int_member(d, "severity"@) != Some(3int) ==> axiom_list(d) is None,
        int_member(d, "severity"@) == Some(3int) ==> axiom_list(d) == first_group(
            r"depends on axioms:\s*\[(.+?)\]"@,
            on_one_line(text_or_empty(text_member(d, "message"@))),
            1,
        ),
{
    reveal_strlit("\n");
    reveal_strlit(" ");
    assert("\n"@ =~= seq!['\n']);
    assert(" "@ =~= seq![' ']);
    let text = text_or_empty(text_member(d, "message"@));
    lemma_replaced_char(text, '\n', ' ');
    assert(replace_of(text, "\n"@, " "@) =~= on_one_line(text));
}

/// The names of several lists are those of each, one list after the other.
pub proof fn lemma_names_joined(a: Seq<Option<Seq<char>>>, b: Seq<Option<Seq<char>>>)
    ensures
        names_in_all(a + b) == names_in_all(a) + names_in_all(b),
    decreases b.len(),
{
    if b.len() == 0 {
        assert(a + b =~= a);
        assert(names_in_all(a) + names_in_all(b) =~= names_in_all(a));
    } else {
        lemma_names_joined(a, b.drop_last());
        assert((a + b).drop_last() =~= a + b.drop_last());
        assert((a + b).last() == b.last());
        match b.last() {
            Some(list) => {
                assert(names_in_all(a) + names_in_all(b.drop_last()) + names_in(list)
                    =~= names_in_all(a) + names_in_all(b));
            },
            None => {},
        }
    }
}

/// The names of one list are its own, and where there is no list there are none.
pub proof fn lemma_names_of_one(list: Option<Seq<char>>)
    ensures
        list matches Some(l) ==> names_in_all(seq![list]) == names_in(l),
        list is None ==> names_in_all(seq![list]).len() == 0,
{
    reveal_with_fuel(names_in_all, 2);
    assert(seq![list].drop_last() =~= Seq::empty());
    if let Some(l) = list {
        assert(Seq::<Seq<char>>::empty() + names_in(l) =~= names_in(l));
    }
}

/// Whether a diagnostic is an error that says something.
pub open spec fn is_error(d: JsonView) -> bool {
    int_member(d, "severity"@) == Some(1int) && text_member(d, "message"@) is Some
}

/// What the errors among some diagnostics say, all of them in their order.
pub open spec fn errors_in(ds: Seq<JsonView>) -> Seq<Seq<char>> {
    ds.filter(|d: JsonView| is_error(d)).map_values(
        |d: JsonView| text_member(d, "message"@)->0,
    )
}

/// What the errors say is told together, and nothing where there are none.
pub proof fn lemma_errors_told(ds: Seq<JsonView>)
    ensures
        errors_joined(ds) == if errors_in(ds).len() == 0 {
            None
        } else {
            Some(join_of(errors_in(ds), "; "@))
        },
{
    lemma_filter_map_is(
        ds,
        |d: JsonView| error_message(d),
        |d: JsonView| is_error(d),
        |d: JsonView| text_member(d, "message"@)->0,
    );
}

/// The line (from 0) on which a diagnostic starts: that of its range, or of its full range
/// where it has no other, and 0 where it has none.
pub open spec fn starts_on(d: JsonView) -> u32 {
    let range = if d.member("range"@) is Some {
        d.member("range"@)
    } else {
        d.member("fullRange"@)
    };
    match range {
        Some(r) => match r.member2("start"@, "line"@) {
            Some(JsonView::PosInt(n)) => n as u32,
            _ => 0,
        },
        None => 0,
    }
}

/// The diagnostics of a file are those that start before a line, and the others are those
/// of the command.
pub proof fn lemma_parts(ds: Seq<JsonView>, line: u32)
    ensures
        part_of(ds, line, false) == ds.filter(|d: JsonView| starts_on(d) < line),
        part_of(ds, line, true) == ds.filter(|d: JsonView| starts_on(d) >= line),
{
    assert forall|d: JsonView| #[trigger] start_line(d) == starts_on(d) by {}
    let f = |d: JsonView| (start_line(d) >= line) == false;
    let g = |d: JsonView| starts_on(d) < line;
    assert(f =~= g);
    let f2 = |d: JsonView| (start_line(d) >= line) == true;
    let g2 = |d: JsonView| starts_on(d) >= line;
    assert(f2 =~= g2);
}

/// Whether the diagnostics of a file with the command behind `line` lines are judged
/// rightly: no axioms are told where anything has errors, those of the file come before
/// those of the command, and all axioms that the command printed are told.
pub open spec fn judged(
    ds: Seq<JsonView>,
    line: u32,
    verdict: Result<Seq<Seq<char>>, ErrorView>,
) -> bool {
    let of_file = errors_in(ds.filter(|d: JsonView| starts_on(d) < line));
    let behind = ds.filter(|d: JsonView| starts_on(d) >= line);
    let of_command = errors_in(behind);
    if of_file.len() > 0 {
        verdict == Err::<Seq<Seq<char>>, ErrorView>(
            ErrorView::AxiomCheckFailed(
                "File has compilation errors: "@ + join_of(of_file, "; "@),
            ),
        )
    } else if of_command.len() > 0 {
        verdict == Err::<Seq<Seq<char>>, ErrorView>(
            ErrorView::AxiomCheckFailed(join_of(of_command, "; "@)),
        )
    } else {
        verdict == Ok::<Seq<Seq<char>>, ErrorView>(
            names_in_all(behind.map_values(|d: JsonView| axiom_list(d))),
        )
    }
}

/// A theorem is judged by all that was said of its file and of the command.
pub proof fn lemma_judged(ds: Seq<JsonView>, line: u32)
    ensures
        judged(ds, line, verdict_of(ds, line)),
{
    lemma_parts(ds, line);
    lemma_errors_told(part_of(ds, line, false));
    lemma_errors_told(part_of(ds, line, true));
}

/// The first of some patterns that matches a line tells what is found there, and nothing
/// is found where none matches.
pub proof fn lemma_found_first(line: Seq<char>, patterns: Seq<Seq<char>>, text: Seq<char>)
    ensures
        found_by(line, patterns) == Some(text) <==> exists|k: int|
            0 <= k < patterns.len() && first_group(#[trigger] patterns[k], line, 0) == Some(text)
                && forall|j: int| 0 <= j < k
                    ==> first_group(#[trigger] patterns[j], line, 0) is None,
        found_by(line, patterns) is None <==> forall|k: int|
            0 <= k < patterns.len() ==> first_group(#[trigger] patterns[k], line, 0) is None,
    decreases patterns.len(),
{
    if patterns.len() > 0 {
        let rest = patterns.skip(1);
        lemma_found_first(line, rest, text);
        assert forall|j: int| 0 <= j < rest.len()
            implies rest[j] == #[trigger] patterns[j + 1] by {}
        let here = first_group(patterns[0], line, 0);
        if here is None {
            if found_by(line, rest) == Some(text) {
                let k = choose|k: int|
                    0 <= k < rest.len() && first_group(#[trigger] rest[k], line, 0) == Some(text)
                        && forall|j: int|
                        0 <= j < k ==> first_group(#[trigger] rest[j], line, 0) is None;
                assert(first_group(patterns[k + 1], line, 0) == Some(text));
                assert forall|j: int| 0 <= j < k + 1 implies first_group(
                    #[trigger] patterns[j],
                    line,
                    0,
                ) is None by {
                    if j > 0 {
                        assert(rest[j - 1] == patterns[j]);
                    }
                }
            }
            if exists|k: int|
                0 <= k < patterns.len() && first_group(#[trigger] patterns[k], line, 0) == Some(
                    text,
                ) && forall|j: int|
                    0 <= j < k ==> first_group(#[trigger] patterns[j], line, 0) is None {
                let k = choose|k: int|
                    0 <= k < patterns.len() && first_group(#[trigger] patterns[k], line, 0) == Some(
                        text,
                    ) && forall|j: int|
                        0 <= j < k ==> first_group(#[trigger] patterns[j], line, 0) is None;
                assert(k > 0);
                assert(rest[k - 1] == patterns[k]);
                assert forall|j: int| 0 <= j < k - 1 implies first_group(
                    #[trigger] rest[j],
                    line,
                    0,
                ) is None by {
                    assert(rest[j] == patterns[j + 1]);
                }
            }
            if forall|k: int|
                0 <= k < rest.len() ==> first_group(#[trigger] rest[k], line, 0) is None {
                assert forall|k: int| 0 <= k < patterns.len() implies first_group(
                    #[trigger] patterns[k],
                    line,
                    0,
                ) is None by {
                    if k > 0 {
                        assert(rest[k - 1] == patterns[k]);
                    }
                }
            }
        }
    }
}

/// All of these are watched for in a file's source.
pub proof fn lemma_watched(k: int)
    requires
        0 <= k < 13,
    ensures
        warning_patterns_of().len() == 13,
        warning_patterns_of().contains(
            seq![
                r"local\s+instance\b"@,
                r"local\s+notation\b"@,
                r"local\s+macro_rules\b"@,
                r"scoped\s+instance\b"@,
                r"scoped\s+notation\b"@,
                r"set_option\s+debug\."@,
                r"import\s+Lean\.Elab\b"@,
                r"import\s+Lean\.Meta\b"@,
                r"@\[implemented_by\b"@,
                r"@\[extern\b"@,
                r"@\[csimp\b"@,
                r"\bunsafe\b"@,
                r"\bopaque\b"@,
            ][k],
        ),
{
    let w = warning_patterns_of();
    assert(w[5] == r"local\s+instance\b"@ && w[6] == r"local\s+notation\b"@);
    assert(w[7] == r"local\s+macro_rules\b"@ && w[9] == r"scoped\s+instance\b"@);
    assert(w[8] == r"scoped\s+notation\b"@ && w[0] == r"set_option\s+debug\."@);
    assert(w[11] == r"import\s+Lean\.Elab\b"@ && w[12] == r"import\s+Lean\.Meta\b"@);
    assert(w[2] == r"@\[implemented_by\b"@ && w[3] == r"@\[extern\b"@);
    assert(w[10] == r"@\[csimp\b"@ && w[1] == r"\bunsafe\b"@ && w[4] == r"\bopaque\b"@);
}

/// Each line in which something was found has its warning.
pub proof fn lemma_each_line_warned(found: Seq<Option<Seq<char>>>, n: int)
    requires
        found.len() <= i64::MAX,
        0 <= n < found.len(),
        found[n] is Some,
    ensures
        warnings_of(found).contains(
            SourceWarningView { line: (n + 1) as i64, pattern: found[n]->0 },
        ),
    decreases found.len(),
{
    let w = SourceWarningView { line: (n + 1) as i64, pattern: found[n]->0 };
    let init = found.drop_last();
    if n < init.len() {
        lemma_each_line_warned(init, n);
        assert(warnings_of(init).contains(w));
        let k = choose|k: int| 0 <= k < warnings_of(init).len() && warnings_of(init)[k] == w;
        assert(warnings_of(found)[k] == w);
    } else {
        assert(warnings_of(found)[warnings_of(init).len() as int] == w);
    }
}

/// Whether the warnings are those for the lines of a source in which one of the patterns is
/// found: one for each such line, in their order, and no others.
pub open spec fn source_warned(content: Seq<char>, warnings: Seq<SourceWarningView>) -> bool {
    let lines = lines_of(content);
    &&& forall|n: int|
        0 <= n < lines.len() ==> (found_by(#[trigger] lines[n], warning_patterns_of()) matches Some(
            text,
        ) ==> warnings.contains(SourceWarningView { line: (n + 1) as i64, pattern: text }))
    &&& forall|i: int|
        0 <= i < warnings.len() ==> {
            let w = #[trigger] warnings[i];
            1 <= w.line <= lines.len() && found_by(lines[w.line - 1], warning_patterns_of())
                == Some(
                w.pattern,
            )
        }
    &&& forall|i: int, j: int|
        0 <= i < j < warnings.len() ==> (#[trigger] warnings[i]).line < (
        #[trigger] warnings[j]).line
}

/// The warnings are those of the source.
pub proof fn lemma_source_warned(content: Seq<char>)
    requires
        lines_of(content).len() <= i64::MAX,
    ensures
        source_warned(content, warnings_of(suspicions(content))),
{
    let lines = lines_of(content);
    let found = suspicions(content);
    lemma_one_warning_per_line(found);
    assert forall|n: int| 0 <= n < lines.len() implies (found_by(
        #[trigger] lines[n],
        warning_patterns_of(),
    ) matches Some(text) ==> warnings_of(found).contains(
        SourceWarningView { line: (n + 1) as i64, pattern: text },
    )) by {
        assert(found[n] == found_by(lines[n], warning_patterns_of()));
        if found[n] is Some {
            lemma_each_line_warned(found, n);
        }
    }
    assert forall|i: int| 0 <= i < warnings_of(found).len() implies ({
        let w = #[trigger] warnings_of(found)[i];
        1 <= w.line <= lines.len() && found_by(lines[w.line - 1], warning_patterns_of()) == Some(
            w.pattern,
        )
    }) by {
        let w = warnings_of(found)[i];
        assert(found[w.line - 1] == Some(w.pattern));
    }
}

/// How `lean_verify` is to end: the command is put behind the file, the diagnostics are
/// judged, the file is put back, and where it is wanted the source is scanned.
pub open spec fn verify_told(path: Seq<char>, theorem: Seq<char>, scan_source: bool) -> spec_fn(
    Heard,
    VerifySaid,
) -> bool {
    |h: Heard, o: VerifySaid|
        {
            &&& read_first(h, path)
            &&& match content_heard(h) {
                None => o is Err && o->Err_0 == read_fault(h),
                Some(content) => {
                    &&& h.len() >= 4
                    &&& h[2].0 == (RequestView::ReplaceContent {
                        path,
                        content: content + ("\n#print axioms _root_."@ + theorem + "\n"@),
                    })
                    &&& if h[2].1 is Done {
                        &&& h.len() >= 5
                        &&& h[3].0 == (RequestView::Diagnostics {
                            path,
                            start_line: None,
                            end_line: None,
                            bounded: true,
                        })
                        &&& h[4].0 == (RequestView::ReplaceContent { path, content })
                        &&& match h[3].1 {
                            ReplyView::Value(raw) => verdict_told(
                                h,
                                path,
                                verdict_of(
                                    list_in(raw, "diagnostics"@),
                                    lines_of(content).len() as u32,
                                ),
                                scan_source,
                                o,
                            ),
                            _ => o is Err && o->Err_0 == fault("get_diagnostics"@, h[3].1),
                        }
                    } else {
                        &&& h.len() == 4
                        &&& h[3].0 == (RequestView::ReplaceContent { path, content })
                        &&& o is Err
                        &&& o->Err_0 == fault("update_file_content"@, h[2].1)
                    }
                },
            }
        }
}

/// Whether a verdict is told, with the warnings of the source where they are wanted.
pub open spec fn verdict_told(
    h: Heard,
    path: Seq<char>,
    verdict: Result<Seq<Seq<char>>, ErrorView>,
    scan_source: bool,
    o: VerifySaid,
) -> bool {
    match verdict {
        Ok(axioms) => {
            &&& o is Ok
            &&& o->Ok_0.axioms == axioms
            &&& if scan_source {
                &&& h.len() == 6
                &&& h[5].0 == (RequestView::ReadFile { path })
                &&& match h[5].1 {
                    ReplyView::Text(source) => lines_of(source).len() <= i64::MAX ==> source_warned(
                        source,
                        o->Ok_0.warnings,
                    ),
                    _ => o->Ok_0.warnings.len() == 0,
                }
            } else {
                h.len() == 5 && o->Ok_0.warnings.len() == 0
            }
        },
        Err(e) => h.len() == 5 && o is Err && o->Err_0 == e,
    }
}

/// `lean_verify` tells what was said of the theorem.
pub proof fn lemma_verify_tells(path: Seq<char>, theorem: Seq<char>, scan_source: bool)
    ensures
        ends_well(
            verify_dialogue(path, theorem, scan_source),
            hearing(),
            unheard(),
            verify_told(path, theorem, scan_source),
        ),
{
    assert forall|source: Seq<char>| lines_of(source).len() <= i64::MAX implies source_warned(
        source,
        warnings_of(#[trigger] suspicions(source)),
    ) by {
        lemma_source_warned(source);
    }
    reveal_with_fuel(ends_well, 8);
    reveal_with_fuel(followed, 4);
}

// ---------------------------------------------------------------------------
// Health of a project
// ---------------------------------------------------------------------------

/// The lines of a text in which something stands, all of them in their order.
pub proof fn lemma_filled_told(text: Seq<char>)
    ensures
        filled_lines(text) == lines_of(text).filter(
            |l: Seq<char>| exists|i: int| 0 <= i < l.len() && !is_space(#[trigger] l[i]),
        ),
{
    let keep = |l: Seq<char>| exists|i: int| 0 <= i < l.len() && !is_space(#[trigger] l[i]);
    let f = |l: Seq<char>| filled(l);
    let image = |l: Seq<char>| l;
    assert forall|l: Seq<char>| #[trigger]
        f(l) == if keep(l) {
            Some(image(l))
        } else {
            None
        } by {
        lemma_trimmed(l);
    }
    lemma_filter_map_is(lines_of(text), f, keep, image);
    let kept = lines_of(text).filter(keep);
    assert(kept.map_values(image) =~= kept);
}

/// The records of an output are the values of its lines that are JSON, all of them in their
/// order.
pub proof fn lemma_records_told(output: Seq<char>)
    ensures
        records_of(output) == filled_lines(output).filter(
            |l: Seq<char>| parsed_json(l) is Ok,
        ).map_values(|l: Seq<char>| parsed_json(l)->Ok_0),
{
    lemma_filter_map_is(
        filled_lines(output),
        |l: Seq<char>| record_of(l),
        |l: Seq<char>| parsed_json(l) is Ok,
        |l: Seq<char>| parsed_json(l)->Ok_0,
    );
}

/// What ripgrep wrote. That it found nothing, which is what the exit code 1 says, is no
/// fault.
pub open spec fn rg_heard(r: ReplyView, doing: Seq<char>) -> Result<Seq<char>, Seq<char>> {
    match r {
        ReplyView::Command { success, code, stdout, stderr } => if success || code == Some(1i32) {
            Ok(stdout)
        } else {
            Err("ripgrep error "@ + doing + ": "@ + stderr)
        },
        ReplyView::Failed(words) => Err("ripgrep not found or failed to run: "@ + words),
        _ => Err("ripgrep not found or failed to run: "@ + Seq::<char>::empty()),
    }
}

/// A search of ripgrep in the Lean files.
pub open spec fn rg(pattern: Seq<char>) -> RequestView {
    RequestView::RunCommand {
        program: "rg"@,
        args: seq!["--json"@, "--type"@, "lean"@, "--no-heading"@, pattern],
    }
}

/// The place in a line, in bytes, at which its first `sorry` begins.
pub open spec fn sorry_begins(text: Seq<char>, column: u32) -> bool {
    exists|i: int|
        {
            &&& #[trigger] occurs_at(text, "sorry"@, i)
            &&& forall|j: int| 0 <= j < i ==> !#[trigger] occurs_at(text, "sorry"@, j)
            &&& column == byte_len(text.take(i)) as u32
        }
}

/// The column of a `sorry` is where it begins on its line.
pub proof fn lemma_sorry_column(content: Seq<char>, line: u32)
    requires
        line >= 1,
    ensures
        match sorry_column(content, line) {
            Some(column) => line <= lines_of(content).len() && sorry_begins(
                lines_of(content)[line - 1],
                column,
            ),
            None => line <= lines_of(content).len() ==> !contains_of(
                lines_of(content)[line - 1],
                "sorry"@,
            ),
        },
{
    if line <= lines_of(content).len() {
        let text = lines_of(content)[line - 1];
        lemma_first_from(text, "sorry"@, 0);
        lemma_find_contains(text, "sorry"@);
    }
}

/// Whether a `sorry` is told, whose file was opened with request number `k`: it bears the
/// goals where it stands, wherever they came, and nothing else of it changes.
pub open spec fn sorry_told(
    h: Heard,
    k: int,
    found: SorryLocationView,
    shown: SorryLocationView,
) -> bool {
    &&& 0 <= k < h.len()
    &&& h[k].0 == (RequestView::OpenFile { path: found.file })
    &&& shown.file == found.file && shown.line == found.line && shown.text == found.text
        && shown.decl == found.decl
    &&& if h[k].1 is Done {
        &&& k + 1 < h.len()
        &&& h[k + 1].0 == (RequestView::FileContent { path: found.file })
        &&& match h[k + 1].1 {
            ReplyView::Text(content) => match sorry_column(content, found.line) {
                Some(column) => {
                    &&& k + 2 < h.len()
                    &&& h[k + 2].0 == (RequestView::Goal {
                        path: found.file,
                        line: before_of(found.line),
                        column,
                    })
                    &&& match h[k + 2].1 {
                        ReplyView::Texts(goals) => shown.goal == if goals.len() == 0 {
                            found.goal
                        } else {
                            Some(join_of(goals, "\n---\n"@))
                        },
                        _ => shown.goal == found.goal,
                    }
                },
                None => shown.goal == found.goal,
            },
            _ => shown.goal == found.goal,
        }
    } else {
        shown.goal == found.goal
    }
}

/// Whether a `sorry` is told by what was asked for behind the scan.
pub open spec fn told_somewhere(
    h: Heard,
    found: SorryLocationView,
    shown: SorryLocationView,
) -> bool {
    exists|k: int| 3 <= k && #[trigger] sorry_told(h, k, found, shown)
}

/// Whether the first `n` of some `sorry`s are told, and the others stand as they were found.
pub open spec fn sorries_shown(
    h: Heard,
    found: Seq<SorryLocationView>,
    n: nat,
    shown: Seq<SorryLocationView>,
) -> bool {
    &&& shown.len() == found.len()
    &&& forall|i: int| 0 <= i < n ==> told_somewhere(h, found[i], #[trigger] shown[i])
    &&& forall|i: int| n <= i < found.len() ==> #[trigger] shown[i] == found[i]
}

/// What was told stays so.
proof fn lemma_still_shown(
    h: Heard,
    t: Heard,
    found: Seq<SorryLocationView>,
    n: nat,
    shown: Seq<SorryLocationView>,
)
    requires
        sorries_shown(h, found, n, shown),
        t.len() >= h.len(),
        t.take(h.len() as int) == h,
    ensures
        sorries_shown(t, found, n, shown),
{
    assert forall|i: int| 0 <= i < n implies told_somewhere(t, found[i], #[trigger] shown[i]) by {
        let k = choose|k: int| 3 <= k && #[trigger] sorry_told(h, k, found[i], shown[i]);
        assert(t.take(h.len() as int)[k] == t[k]);
        if k + 1 < h.len() {
            assert(t.take(h.len() as int)[k + 1] == t[k + 1]);
        }
        if k + 2 < h.len() {
            assert(t.take(h.len() as int)[k + 2] == t[k + 2]);
        }
        assert(sorry_told(t, k, found[i], shown[i]));
    }
}

/// How the search for goals is to end.
pub open spec fn enriched_told(
    scan: ScanView,
    found: Seq<SorryLocationView>,
    before: Heard,
) -> spec_fn(Heard, HealthSaid) -> bool {
    |h: Heard, o: HealthSaid|
        {
            &&& h.len() >= before.len() && h.take(before.len() as int) == before
            &&& o is Ok
            &&& o->Ok_0.success
            &&& o->Ok_0.file_count == scan.file_count
            &&& o->Ok_0.errors == scan.errors
            &&& sorries_shown(h, found, found.len(), o->Ok_0.sorries)
        }
}

/// One more `sorry` is told.
proof fn lemma_one_more_shown(
    h: Heard,
    k: int,
    found: Seq<SorryLocationView>,
    i: nat,
    shown: Seq<SorryLocationView>,
    next: Seq<SorryLocationView>,
)
    requires
        i < found.len(),
        sorries_shown(h, found, i, shown),
        next.len() == shown.len(),
        forall|j: int| 0 <= j < next.len() && j != i ==> #[trigger] next[j] == shown[j],
        sorry_told(h, k, found[i as int], next[i as int]),
        3 <= k,
    ensures
        sorries_shown(h, found, i + 1, next),
{
    assert forall|j: int| 0 <= j < i + 1 implies told_somewhere(
        h,
        found[j],
        #[trigger] next[j],
    ) by {
        if j < i {
            assert(next[j] == shown[j]);
            assert(told_somewhere(h, found[j], shown[j]));
        } else {
            assert(sorry_told(h, k, found[j], next[j]));
        }
    }
}

/// From each `sorry` on, what is told is what was replied.
proof fn lemma_enriching_tells(
    scan: ScanView,
    found: Seq<SorryLocationView>,
    shown: Seq<SorryLocationView>,
    i: nat,
    before: Heard,
    h: Heard,
)
    requires
        i <= found.len(),
        h.len() >= before.len() >= 3,
        h.take(before.len() as int) == before,
        sorries_shown(h, found, i, shown),
    ensures
        ends_well(enrich_from(scan, shown, i), hearing(), h, enriched_told(scan, found, before)),
    decreases found.len() - i,
{
    let good = enriched_told(scan, found, before);
    if i < found.len() {
        let s = found[i as int];
        assert(shown[i as int] == s);
        let at = h.len() as int;
        let q0 = RequestView::OpenFile { path: s.file };
        let q1 = RequestView::FileContent { path: s.file };
        let k0 = sorry_opened(scan, shown, i);
        let k1 = sorry_read(scan, shown, i);
        let k2 = sorry_goals(scan, shown, i);
        assert forall|r0: ReplyView|
            ends_well(#[trigger] k0(r0), hearing(), h.push((q0, r0)), good) by {
            let h0 = h.push((q0, r0));
            assert(h0.take(h.len() as int) =~= h);
            assert(h0.take(before.len() as int) =~= h.take(before.len() as int));
            lemma_still_shown(h, h0, found, i, shown);
            if r0 is Done {
                assert forall|r1: ReplyView|
                    ends_well(#[trigger] k1(r1), hearing(), h0.push((q1, r1)), good) by {
                    let h1 = h0.push((q1, r1));
                    assert(h1.take(h0.len() as int) =~= h0);
                    assert(h1.take(before.len() as int) =~= h.take(before.len() as int));
                    lemma_still_shown(h0, h1, found, i, shown);
                    let column = match r1 {
                        ReplyView::Text(content) => sorry_column(content, s.line),
                        _ => None,
                    };
                    match column {
                        Some(c) => {
                            let q2 = RequestView::Goal {
                                path: s.file,
                                line: before_of(s.line),
                                column: c,
                            };
                            assert forall|r2: ReplyView|
                                ends_well(#[trigger] k2(r2), hearing(), h1.push((q2, r2)),
                                    good) by {
                                let h2 = h1.push((q2, r2));
                                assert(h2.take(h1.len() as int) =~= h1);
                                assert(h2.take(before.len() as int) =~= h.take(
                                    before.len() as int,
                                ));
                                lemma_still_shown(h1, h2, found, i, shown);
                                let next = match r2 {
                                    ReplyView::Texts(goals) => shown.update(
                                        i as int,
                                        with_goal(s, goals),
                                    ),
                                    _ => shown,
                                };
                                lemma_one_more_shown(h2, at, found, i, shown, next);
                                lemma_enriching_tells(scan, found, next, i + 1, before, h2);
                            }
                        },
                        None => {
                            lemma_one_more_shown(h1, at, found, i, shown, shown);
                            lemma_enriching_tells(scan, found, shown, i + 1, before, h1);
                        },
                    }
                }
            } else {
                lemma_one_more_shown(h0, at, found, i, shown, shown);
                lemma_enriching_tells(scan, found, shown, i + 1, before, h0);
            }
        }
    }
}

/// How `lean_project_health` is to end.
pub open spec fn health_told(with_goals: bool) -> spec_fn(Heard, HealthSaid) -> bool {
    |h: Heard, o: HealthSaid|
        {
            &&& h.len() >= 1
            &&& h[0].0 == (RequestView::RunCommand {
                program: "rg"@,
                args: seq!["--type"@, "lean"@, "--files"@],
            })
            &&& match rg_heard(h[0].1, "counting files"@) {
                Err(words) => h.len() == 1 && o is Err && o->Err_0 == words,
                Ok(out) => {
                    let count = filled_lines(out).len() as u32;
                    if count == 0 {
                        &&& h.len() == 1
                        &&& o is Ok
                        &&& o->Ok_0.success
                        &&& o->Ok_0.file_count == 0
                        &&& o->Ok_0.sorries.len() == 0
                        &&& o->Ok_0.errors.len() == 0
                    } else {
                        &&& h.len() >= 2
                        &&& h[1].0 == rg(r"\bsorry\b"@)
                        &&& match rg_heard(h[1].1, "finding sorries"@) {
                            Err(words) => h.len() == 2 && o is Err && o->Err_0 == words,
                            Ok(sorry_out) => {
                                &&& h.len() >= 3
                                &&& h[2].0 == rg("#check_failure|error"@)
                                &&& match rg_heard(h[2].1, "finding errors"@) {
                                    Err(words) => h.len() == 3 && o is Err && o->Err_0 == words,
                                    Ok(error_out) => {
                                        let found = sorries_of(records_of(sorry_out));
                                        &&& o is Ok
                                        &&& o->Ok_0.success
                                        &&& o->Ok_0.file_count == count
                                        &&& o->Ok_0.errors == complaints_of(
                                            records_of(error_out),
                                        )
                                        &&& with_goals ==> sorries_shown(
                                            h,
                                            found,
                                            found.len(),
                                            o->Ok_0.sorries,
                                        )
                                        &&& !with_goals ==> h.len() == 3 && o->Ok_0.sorries
                                            == found
                                    },
                                }
                            },
                        }
                    }
                },
            }
        }
}

/// `lean_project_health` tells all that was found.
pub proof fn lemma_health_tells(with_goals: bool)
    ensures
        ends_well(health_dialogue(with_goals), hearing(), unheard(), health_told(with_goals)),
{
    let good = health_told(with_goals);
    assert forall|r: ReplyView, doing: Seq<char>| #[trigger] rg_said(r, doing) == rg_heard(
        r,
        doing,
    ) by {}
    let q0 = RequestView::RunCommand {
        program: "rg"@,
        args: seq!["--type"@, "lean"@, "--files"@],
    };
    let q1 = rg(r"\bsorry\b"@);
    let q2 = rg("#check_failure|error"@);
    let k0 = files_listed(with_goals);
    assert forall|r0: ReplyView|
        ends_well(#[trigger] k0(r0), hearing(), unheard().push((q0, r0)), good) by {
        let h0 = unheard().push((q0, r0));
        reveal_with_fuel(ends_well, 2);
        match rg_heard(r0, "counting files"@) {
            Err(_) => {},
            Ok(out) => {
                let count = filled_lines(out).len() as u32;
                let k1 = sorries_found(count, with_goals);
                if count > 0 {
                    assert forall|r1: ReplyView|
                        ends_well(#[trigger] k1(r1), hearing(), h0.push((q1, r1)), good) by {
                        let h1 = h0.push((q1, r1));
                        match rg_heard(r1, "finding sorries"@) {
                            Err(_) => {},
                            Ok(sorry_out) => {
                                let found = sorries_of(records_of(sorry_out));
                                let k2 = errors_found(count, found, with_goals);
                                assert forall|r2: ReplyView|
                                    ends_well(#[trigger] k2(r2), hearing(), h1.push((q2, r2)),
                                        good) by {
                                    let h2 = h1.push((q2, r2));
                                    match rg_heard(r2, "finding errors"@) {
                                        Err(_) => {},
                                        Ok(error_out) => {
                                            let scan = ScanView {
                                                file_count: count,
                                                errors: complaints_of(records_of(error_out)),
                                            };
                                            if with_goals {
                                                assert(h2.take(h2.len() as int) =~= h2);
                                                lemma_enriching_tells(
                                                    scan,
                                                    found,
                                                    found,
                                                    0,
                                                    h2,
                                                    h2,
                                                );
                                                let middle = enriched_told(scan, found, h2);
                                                assert forall|s: Heard, o: HealthSaid| #[trigger]
                                                    middle(s, o) implies good(s, o) by {
                                                    assert(s.take(h2.len() as int)[0] == s[0]);
                                                    assert(s.take(h2.len() as int)[1] == s[1]);
                                                    assert(s.take(h2.len() as int)[2] == s[2]);
                                                }
                                                lemma_ends_both(
                                                    k2(r2),
                                                    hearing(),
                                                    h2,
                                                    middle,
                                                    middle,
                                                    good,
                                                );
                                            }
                                        },
                                    }
                                }
                            },
                        }
                    }
                }
            },
        }
    }
}

} // verus!
