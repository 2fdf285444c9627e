//! What the tools that look at a file tell, in terms of what they were replied.
use crate::error::ErrorView;
use crate::json::{int_at, int_member, items_member, text_member, JsonView};
use crate::lists::lemma_filter_map_is;
use crate::models::{
    CodeActionView, CodeActionsResultView, CompletionItemView, CompletionsResultView,
    DeclarationInfoView, FileOutlineView, GoalDiffResultView, GoalStateView, HoverInfoView,
    InteractiveDiagnosticsResultView, ReferenceLocationView, TermGoalStateView,
    WidgetSourceResultView, WidgetsResultView,
};
use crate::protocol::{ends_well, followed, lemma_ends_both, ReplyView, RequestView};
use crate::text::{byte_len, first_non_space, lines_of, trim_end_of};
use crate::tools::answers::{counted_from_one, fault, hearing, unheard, Heard};
use crate::tools::code_actions::{
    action_of, action_resolved, actions_diagnosed, actions_dialogue, actions_opened, actions_told,
    collect_from, lemma_actions_together, ranges_on, resolve_from, with_actions, ActionsSaid,
    LspRange,
};
use crate::tools::completions::{
    at_most, candidate_of, candidates_of, completions_dialogue, completions_sorted, items_named,
    prefix_of, CandidateView, CompletionsSaid,
};
use crate::tools::declarations::{declaration_dialogue, DeclarationSaid};
use crate::tools::diagnostics::{
    diagnostics_dialogue, failed_all, kept_messages, last_failed, DiagnosticsQueryView,
    DiagnosticsSaid, DiagnosticsView,
};
use crate::tools::findings::words_of;
use crate::tools::goal::{goal_dialogue, term_goal_dialogue, unfenced, GoalSaid, TermGoalSaid};
use crate::tools::hover::{
    covers, hover_dialogue, hover_text, messages_at, numbered_of, raw_diagnostics, severities_of,
    symbol_of, HoverSaid, NumberedView,
};
use crate::tools::outline::{entries_of, imports_of, outline_dialogue, OutlineSaid};
use crate::tools::proof_diff::{diff_dialogue, DiffSaid, Places};
use crate::tools::references::{place_of, references_dialogue, PlaceView, ReferencesSaid};
use crate::tools::symbol_resolve::{line_dialogue, range_called};
use crate::tools::widgets::{
    widget_source_dialogue, widgets_dialogue, WidgetSourceSaid, WidgetsSaid,
};
use vstd::prelude::*;

verus! {

// ---------------------------------------------------------------------------
// Reading a file
// ---------------------------------------------------------------------------

/// Whether a file was first opened, and then, where that worked, read.
pub open spec fn read_first(h: Heard, path: Seq<char>) -> bool {
    &&& h.len() >= 1
    &&& h[0].0 == (RequestView::OpenFile { path })
    &&& h[0].1 is Done ==> h.len() >= 2 && h[1].0 == (RequestView::FileContent { path })
}

/// The content that came of it, if any did.
pub open spec fn content_heard(h: Heard) -> Option<Seq<char>> {
    if h.len() >= 2 && h[0].1 is Done {
        match h[1].1 {
            ReplyView::Text(content) => Some(content),
            _ => None,
        }
    } else {
        None
    }
}

/// What a file that could not be read comes to.
pub open spec fn read_fault(h: Heard) -> ErrorView {
    if h[0].1 is Done {
        fault("get_file_content"@, h[1].1)
    } else {
        fault("open_file"@, h[0].1)
    }
}

// ---------------------------------------------------------------------------
// Goals
// ---------------------------------------------------------------------------

/// How `lean_goal` is to end. With a column, it tells all goals that were replied for
/// that place; without one, those before the line's first character that is no white
/// space and those behind its last. A place that is not in the file is refused.
pub open spec fn goal_told(path: Seq<char>, line: u32, column: Option<u32>) -> spec_fn(
    Heard,
    GoalSaid,
) -> bool {
    |h: Heard, o: GoalSaid|
        {
            &&& read_first(h, path)
            &&& match content_heard(h) {
                None => o == Err::<GoalStateView, ErrorView>(read_fault(h)),
                Some(content) => {
                    let lines = lines_of(content);
                    let text = lines[line - 1];
                    if !(1 <= line <= lines.len()) {
                        o == Err::<GoalStateView, ErrorView>(
                            ErrorView::LineOutOfRange { line: line as nat, total: lines.len() },
                        )
                    } else {
                        match column {
                            Some(c) => if !(1 <= c <= byte_len(text) + 1) {
                                o == Err::<GoalStateView, ErrorView>(
                                    ErrorView::ColumnOutOfRange {
                                        column: c as nat,
                                        length: byte_len(text),
                                    },
                                )
                            } else {
                                &&& h.len() == 3
                                &&& h[2].0 == (RequestView::Goal {
                                    path,
                                    line: (line - 1) as u32,
                                    column: (c - 1) as u32,
                                })
                                &&& o == match h[2].1 {
                                    ReplyView::Texts(goals) => Ok::<GoalStateView, ErrorView>(
                                        GoalStateView {
                                            line_context: text,
                                            goals: Some(goals),
                                            goals_before: None,
                                            goals_after: None,
                                        },
                                    ),
                                    _ => Err(fault("get_goal"@, h[2].1)),
                                }
                            },
                            None => {
                                &&& h.len() >= 3
                                &&& h[2].0 == (RequestView::Goal {
                                    path,
                                    line: (line - 1) as u32,
                                    column: first_non_space(text) as u32,
                                })
                                &&& h[2].1 is Texts ==> {
                                    &&& h.len() == 4
                                    &&& h[3].0 == (RequestView::Goal {
                                        path,
                                        line: (line - 1) as u32,
                                        column: byte_len(trim_end_of(text)) as u32,
                                    })
                                }
                                &&& o == match h[2].1 {
                                    ReplyView::Texts(before) => match h[3].1 {
                                        ReplyView::Texts(after) => Ok::<GoalStateView, ErrorView>(
                                            GoalStateView {
                                                line_context: text,
                                                goals: None,
                                                goals_before: Some(before),
                                                goals_after: Some(after),
                                            },
                                        ),
                                        _ => Err(fault("get_goal"@, h[3].1)),
                                    },
                                    _ => Err(fault("get_goal"@, h[2].1)),
                                }
                            },
                        }
                    }
                },
            }
        }
}

/// `lean_goal` tells all goals that were replied for its places.
pub proof fn lemma_goal_tells(path: Seq<char>, line: u32, column: Option<u32>)
    ensures
        ends_well(
            goal_dialogue(path, line, column),
            hearing(),
            unheard(),
            goal_told(path, line, column),
        ),
{
    reveal_with_fuel(ends_well, 6);
    reveal_with_fuel(followed, 4);
}

/// How `lean_term_goal` is to end: with the type that was replied for the place, or for
/// the end of the line where no column is given.
pub open spec fn term_goal_told(path: Seq<char>, line: u32, column: Option<u32>) -> spec_fn(
    Heard,
    TermGoalSaid,
) -> bool {
    |h: Heard, o: TermGoalSaid|
        {
            &&& read_first(h, path)
            &&& match content_heard(h) {
                None => o == Err::<TermGoalStateView, ErrorView>(read_fault(h)),
                Some(content) => {
                    let lines = lines_of(content);
                    let text = lines[line - 1];
                    if !(1 <= line <= lines.len()) {
                        o == Err::<TermGoalStateView, ErrorView>(
                            ErrorView::LineOutOfRange { line: line as nat, total: lines.len() },
                        )
                    } else if column matches Some(c) && !(1 <= c <= byte_len(text) + 1) {
                        o == Err::<TermGoalStateView, ErrorView>(
                            ErrorView::ColumnOutOfRange {
                                column: column->0 as nat,
                                length: byte_len(text),
                            },
                        )
                    } else {
                        &&& h.len() == 3
                        &&& h[2].0 == (RequestView::TermGoal {
                            path,
                            line: (line - 1) as u32,
                            column: match column {
                                Some(c) => (c - 1) as u32,
                                None => byte_len(trim_end_of(text)) as u32,
                            },
                        })
                        &&& match h[2].1 {
                            ReplyView::MaybeValue(v) => {
                                &&& o is Ok
                                &&& o->Ok_0.line_context == text
                                &&& o->Ok_0.expected_type is Some <==> v is Some && text_member(
                                    v->0,
                                    "goal"@,
                                ) is Some
                                &&& o->Ok_0.expected_type is Some ==> o->Ok_0.expected_type == Some(
                                    unfenced(text_member(v->0, "goal"@)->0),
                                )
                            },
                            _ => o == Err::<TermGoalStateView, ErrorView>(
                                fault("get_term_goal"@, h[2].1),
                            ),
                        }
                    }
                },
            }
        }
}

/// `lean_term_goal` tells the type that was replied for its place.
pub proof fn lemma_term_goal_tells(path: Seq<char>, line: u32, column: Option<u32>)
    ensures
        ends_well(
            term_goal_dialogue(path, line, column),
            hearing(),
            unheard(),
            term_goal_told(path, line, column),
        ),
{
    reveal_with_fuel(ends_well, 6);
    reveal_with_fuel(followed, 4);
}

/// The column (from 0) of a place in a line: the one given (from 1), or the line's end.
pub open spec fn column_or_end(text: Seq<char>, column: Option<u32>) -> u32 {
    match column {
        Some(c) => if c == 0 {
            0
        } else {
            (c - 1) as u32
        },
        None => byte_len(trim_end_of(text)) as u32,
    }
}

/// How `lean_proof_diff` is to end: with what changed from all goals that were replied
/// for the first place to all those for the second.
pub open spec fn diff_told(path: Seq<char>, p: Places) -> spec_fn(Heard, DiffSaid) -> bool {
    |h: Heard, o: DiffSaid|
        {
            &&& read_first(h, path)
            &&& match content_heard(h) {
                None => o == Err::<GoalDiffResultView, ErrorView>(read_fault(h)),
                Some(content) => {
                    let lines = lines_of(content);
                    if !(1 <= p.before_line <= lines.len()) {
                        o == Err::<GoalDiffResultView, ErrorView>(
                            ErrorView::LineOutOfRange {
                                line: p.before_line as nat,
                                total: lines.len(),
                            },
                        )
                    } else if !(1 <= p.after_line <= lines.len()) {
                        o == Err::<GoalDiffResultView, ErrorView>(
                            ErrorView::LineOutOfRange {
                                line: p.after_line as nat,
                                total: lines.len(),
                            },
                        )
                    } else {
                        &&& h.len() >= 3
                        &&& h[2].0 == (RequestView::Goal {
                            path,
                            line: (p.before_line - 1) as u32,
                            column: column_or_end(lines[p.before_line - 1], p.before_column),
                        })
                        &&& match h[2].1 {
                            ReplyView::Texts(before) => {
                                &&& h.len() >= 4
                                &&& h[3].0 == (RequestView::Goal {
                                    path,
                                    line: (p.after_line - 1) as u32,
                                    column: column_or_end(lines[p.after_line - 1], p.after_column),
                                })
                                &&& match h[3].1 {
                                    ReplyView::Texts(after) => {
                                        &&& h.len() == 5
                                        &&& h[4].0 == (RequestView::DiffGoals { before, after })
                                        &&& h[4].1 matches ReplyView::Diff(d) ==> o == Ok::<
                                            GoalDiffResultView,
                                            ErrorView,
                                        >(d)
                                        &&& !(h[4].1 is Diff) ==> {
                                            &&& o is Ok
                                            &&& !o->Ok_0.changed
                                            &&& o->Ok_0.goals_added.len() == 0
                                            &&& o->Ok_0.goals_removed.len() == 0
                                            &&& o->Ok_0.hypotheses_added.len() == 0
                                            &&& o->Ok_0.hypotheses_removed.len() == 0
                                        }
                                    },
                                    _ => o == Err::<GoalDiffResultView, ErrorView>(
                                        fault("get_goal"@, h[3].1),
                                    ),
                                }
                            },
                            _ => o == Err::<GoalDiffResultView, ErrorView>(
                                fault("get_goal"@, h[2].1),
                            ),
                        }
                    }
                },
            }
        }
}

/// `lean_proof_diff` tells what changed between the goals of its two places.
pub proof fn lemma_diff_tells(path: Seq<char>, p: Places)
    ensures
        ends_well(diff_dialogue(path, p), hearing(), unheard(), diff_told(path, p)),
{
    reveal_with_fuel(ends_well, 7);
    reveal_with_fuel(followed, 4);
}

// ---------------------------------------------------------------------------
// Places
// ---------------------------------------------------------------------------

/// The places among some locations: those that have a URI and a range.
pub open spec fn is_place(l: JsonView) -> bool {
    text_member(l, "uri"@) is Some && l.member("range"@) is Some
}

/// Whether a reference tells of a location, its lines and columns counted from 1.
pub open spec fn reference_told(l: JsonView, path: Option<Seq<char>>, r: ReferenceLocationView) ->
    bool {
    let range = l.member("range"@)->0;
    &&& r.file_path == match path {
        Some(p) => p,
        None => Seq::empty(),
    }
    &&& counted_from_one(r.line, int_at(range, "start"@, "line"@, 0))
    &&& counted_from_one(r.column, int_at(range, "start"@, "character"@, 0))
    &&& counted_from_one(r.end_line, int_at(range, "end"@, "line"@, 0))
    &&& counted_from_one(r.end_column, int_at(range, "end"@, "character"@, 0))
}

/// How `lean_references` is to end: with all places that were replied, in their order,
/// the declaration's among them.
pub open spec fn references_told(path: Seq<char>, line: u32, column: u32) -> spec_fn(
    Heard,
    ReferencesSaid,
) -> bool {
    |h: Heard, o: ReferencesSaid|
        {
            &&& h.len() >= 1 && h[0].0 == (RequestView::OpenFile { path })
            &&& h[0].1 is Done ==> h.len() >= 2 && h[1].0 == (RequestView::Diagnostics {
                path,
                start_line: None,
                end_line: None,
                bounded: false,
            })
            &&& h[0].1 is Done && h[1].1 is Value ==> h.len() >= 3 && h[2].0 == (
            RequestView::References {
                path,
                line: if line == 0 {
                    0
                } else {
                    (line - 1) as u32
                },
                column: if column == 0 {
                    0
                } else {
                    (column - 1) as u32
                },
                include_declaration: true,
            })
            &&& if h[0].1 is Done && h[1].1 is Value && h[2].1 is Values {
                let places = h[2].1->Values_0.filter(|l: JsonView| is_place(l));
                &&& h.len() == 4
                &&& h[3].0 == (RequestView::UriPaths {
                    uris: places.map_values(|l: JsonView| text_member(l, "uri"@)->0),
                })
                &&& o is Ok
                &&& o->Ok_0.items.len() == places.len()
                &&& forall|i: int|
                    0 <= i < places.len() ==> reference_told(
                        places[i],
                        match h[3].1 {
                            ReplyView::Names(names) => if i < names.len() {
                                names[i]
                            } else {
                                None
                            },
                            _ => None,
                        },
                        #[trigger] o->Ok_0.items[i],
                    )
            } else if !(h[0].1 is Done) {
                h.len() == 1 && o is Err && o->Err_0 == fault("open_file"@, h[0].1)
            } else if !(h[1].1 is Value) {
                h.len() == 2 && o is Err && o->Err_0 == fault("get_diagnostics"@, h[1].1)
            } else {
                h.len() == 3 && o is Err && o->Err_0 == fault("get_references"@, h[2].1)
            }
        }
}

/// Whether some places are those of the locations that have a URI and a range.
pub open spec fn places_kept(ls: Seq<JsonView>, places: Seq<PlaceView>) -> bool {
    let kept = ls.filter(|l: JsonView| is_place(l));
    &&& places.len() == kept.len()
    &&& crate::tools::references::uris_of(places) == kept.map_values(
        |l: JsonView| text_member(l, "uri"@)->0,
    )
    &&& forall|i: int| 0 <= i < kept.len() ==> Some(#[trigger] places[i]) == place_of(kept[i])
}

/// The places of some locations are those that have a URI and a range.
proof fn lemma_places_kept(ls: Seq<JsonView>)
    ensures
        places_kept(ls, crate::tools::references::places_of(ls)),
{
    let keep = |l: JsonView| is_place(l);
    let image = |l: JsonView| place_of(l)->0;
    let kept = ls.filter(keep);
    let places = crate::tools::references::places_of(ls);
    lemma_filter_map_is(ls, |l: JsonView| place_of(l), keep, image);
    lemma_kept_holds(ls, keep);
    assert forall|i: int| 0 <= i < kept.len() implies Some(#[trigger] places[i]) == place_of(
        kept[i],
    ) by {
        assert(keep(kept[i]));
    }
    assert forall|i: int| 0 <= i < kept.len() implies #[trigger] places[i].uri == text_member(
        kept[i],
        "uri"@,
    )->0 by {
        assert(keep(kept[i]));
    }
    assert(crate::tools::references::uris_of(places) =~= kept.map_values(
        |l: JsonView| text_member(l, "uri"@)->0,
    ));
}

/// `lean_references` tells all places that were replied.
pub proof fn lemma_references_tells(path: Seq<char>, line: u32, column: u32)
    ensures
        ends_well(
            references_dialogue(path, line, column),
            hearing(),
            unheard(),
            references_told(path, line, column),
        ),
{
    assert forall|ls: Seq<JsonView>|
        places_kept(ls, #[trigger] crate::tools::references::places_of(ls)) by {
        lemma_places_kept(ls);
    }
    reveal_with_fuel(ends_well, 6);
}

/// What is kept holds of each item that is kept.
pub proof fn lemma_kept_holds<A>(s: Seq<A>, keep: spec_fn(A) -> bool)
    ensures
        forall|i: int| 0 <= i < s.filter(keep).len() ==> keep(#[trigger] s.filter(keep)[i]),
    decreases s.len(),
{
    reveal(Seq::filter);
    if s.len() > 0 {
        lemma_kept_holds(s.drop_last(), keep);
    }
}

/// How `lean_declaration_file` is to end: with the source text of the file that the
/// first declaration leads to which was replied for the symbol's first place.
pub open spec fn declaration_told(path: Seq<char>, symbol: Seq<char>) -> spec_fn(
    Heard,
    DeclarationSaid,
) -> bool {
    |h: Heard, o: DeclarationSaid|
        {
            &&& read_first(h, path)
            &&& match content_heard(h) {
                None => o == Err::<DeclarationInfoView, ErrorView>(read_fault(h)),
                Some(content) => {
                    &&& h.len() >= 3
                    &&& h[2].0 == (RequestView::FindSymbol { content, symbol })
                    &&& match h[2].1 {
                        ReplyView::Position(Some(p)) => {
                            &&& h.len() >= 4
                            &&& h[3].0 == (RequestView::Declarations {
                                path,
                                line: p.0 as u32,
                                column: p.1 as u32,
                            })
                            &&& match h[3].1 {
                                ReplyView::Values(ds) => {
                                    let found = if ds.len() == 0 {
                                        None
                                    } else {
                                        match ds[0].member("targetUri"@) {
                                            Some(v) => v.text(),
                                            None => text_member(ds[0], "uri"@),
                                        }
                                    };
                                    match found {
                                        None => o == Err::<DeclarationInfoView, ErrorView>(
                                            ErrorView::NoDeclaration(symbol),
                                        ),
                                        Some(uri) => {
                                            &&& h.len() >= 5
                                            &&& h[4].0 == (RequestView::UriPaths {
                                                uris: seq![uri],
                                            })
                                            &&& if h[4].1 is Names && h[4].1->Names_0.len() > 0
                                                && h[4].1->Names_0[0] is Some {
                                                let file = h[4].1->Names_0[0]->0;
                                                &&& h.len() == 6
                                                &&& h[5].0 == (RequestView::SourceText {
                                                    path: file,
                                                })
                                                &&& match h[5].1 {
                                                    ReplyView::Text(source) => o == Ok::<
                                                        DeclarationInfoView,
                                                        ErrorView,
                                                    >(
                                                        DeclarationInfoView {
                                                            file_path: file,
                                                            content: source,
                                                        },
                                                    ),
                                                    _ => o is Err && o->Err_0
                                                        == ErrorView::Other(
                                                        "Could not open declaration file `"@ + file
                                                            + "` for `"@ + symbol + "`: "@
                                                            + words_of(h[5].1),
                                                    ),
                                                }
                                            } else {
                                                h.len() == 5 && o is Err && o->Err_0
                                                    == ErrorView::Other(
                                                    "Could not convert URI to path: "@ + uri,
                                                )
                                            }
                                        },
                                    }
                                },
                                _ => o == Err::<DeclarationInfoView, ErrorView>(
                                    fault("get_declarations"@, h[3].1),
                                ),
                            }
                        },
                        _ => o == Err::<DeclarationInfoView, ErrorView>(
                            ErrorView::SymbolNotFound(symbol),
                        ),
                    }
                },
            }
        }
}

/// `lean_declaration_file` tells the file that declares the symbol.
pub proof fn lemma_declaration_tells(path: Seq<char>, symbol: Seq<char>)
    ensures
        ends_well(
            declaration_dialogue(path, symbol),
            hearing(),
            unheard(),
            declaration_told(path, symbol),
        ),
{
    reveal_with_fuel(ends_well, 8);
    reveal_with_fuel(followed, 4);
}

/// How `lean_get_widgets` is to end.
pub open spec fn widgets_are_told(path: Seq<char>, line: u32, column: u32) -> spec_fn(
    Heard,
    WidgetsSaid,
) -> bool {
    |h: Heard, o: WidgetsSaid|
        {
            &&& h.len() >= 1 && h[0].0 == (RequestView::OpenFile { path })
            &&& if h[0].1 is Done {
                &&& h.len() == 2
                &&& h[1].0 == (RequestView::Widgets {
                    path,
                    line: if line == 0 {
                        0
                    } else {
                        (line - 1) as u32
                    },
                    column: if column == 0 {
                        0
                    } else {
                        (column - 1) as u32
                    },
                })
                &&& o == match h[1].1 {
                    ReplyView::Values(widgets) => Ok::<WidgetsResultView, ErrorView>(
                        WidgetsResultView { widgets },
                    ),
                    _ => Err(fault("get_widgets"@, h[1].1)),
                }
            } else {
                o == Err::<WidgetsResultView, ErrorView>(fault("open_file"@, h[0].1))
            }
        }
}

/// `lean_get_widgets` tells all widgets that were replied for its place.
pub proof fn lemma_widgets_tells(path: Seq<char>, line: u32, column: u32)
    ensures
        ends_well(
            widgets_dialogue(path, line, column),
            hearing(),
            unheard(),
            widgets_are_told(path, line, column),
        ),
{
    reveal_with_fuel(ends_well, 4);
}

/// How `lean_get_widget_source` is to end.
pub open spec fn widget_source_told(path: Seq<char>, hash: Seq<char>) -> spec_fn(
    Heard,
    WidgetSourceSaid,
) -> bool {
    |h: Heard, o: WidgetSourceSaid|
        {
            &&& h.len() >= 1 && h[0].0 == (RequestView::OpenFile { path })
            &&& if h[0].1 is Done {
                &&& h.len() == 2
                &&& h[1].0 == (RequestView::WidgetSource { path, line: 0, column: 0, hash })
                &&& o == match h[1].1 {
                    ReplyView::Value(source) => Ok::<WidgetSourceResultView, ErrorView>(
                        WidgetSourceResultView { source },
                    ),
                    _ => Err(fault("get_widget_source"@, h[1].1)),
                }
            } else {
                o == Err::<WidgetSourceResultView, ErrorView>(fault("open_file"@, h[0].1))
            }
        }
}

/// `lean_get_widget_source` tells the source that was replied for the hash.
pub proof fn lemma_widget_source_tells(path: Seq<char>, hash: Seq<char>)
    ensures
        ends_well(
            widget_source_dialogue(path, hash),
            hearing(),
            unheard(),
            widget_source_told(path, hash),
        ),
{
    reveal_with_fuel(ends_well, 4);
}

/// How the search for the line of a declaration is to end.
pub open spec fn line_is_told(path: Seq<char>, name: Seq<char>) -> spec_fn(
    Heard,
    Result<u32, ErrorView>,
) -> bool {
    |h: Heard, o: Result<u32, ErrorView>|
        {
            &&& h.len() == 1
            &&& h[0].0 == (RequestView::Symbols { path })
            &&& o == match h[0].1 {
                ReplyView::Values(symbols) => match range_called(symbols, name) {
                    Some(range) => Ok::<u32, ErrorView>(range.0),
                    None => Err(ErrorView::DeclarationNotFound(name)),
                },
                _ => Err(fault("get_document_symbols"@, h[0].1)),
            }
        }
}

/// Looking for a declaration's first line tells the first line of the symbol that bears
/// its name.
pub proof fn lemma_line_tells(path: Seq<char>, name: Seq<char>)
    ensures
        ends_well(
            line_dialogue(path, name),
            hearing(),
            unheard(),
            line_is_told(path, name),
        ),
{
    reveal_with_fuel(ends_well, 3);
    reveal_with_fuel(followed, 3);
}

/// How `lean_file_outline` is to end.
pub open spec fn outline_told(path: Seq<char>, max: Option<usize>) -> spec_fn(
    Heard,
    OutlineSaid,
) -> bool {
    |h: Heard, o: OutlineSaid|
        {
            &&& read_first(h, path)
            &&& match content_heard(h) {
                None => o == Err::<FileOutlineView, ErrorView>(read_fault(h)),
                Some(content) => {
                    &&& h.len() == 3
                    &&& h[2].0 == (RequestView::Symbols { path })
                    &&& match h[2].1 {
                        ReplyView::Values(symbols) => {
                            let all = entries_of(symbols);
                            &&& o is Ok
                            &&& o->Ok_0.imports == imports_of(lines_of(content), 0)
                            &&& if max is Some && max->0 < all.len() {
                                &&& o->Ok_0.declarations == all.take(max->0 as int)
                                &&& o->Ok_0.total_declarations == Some(all.len() as i64)
                            } else {
                                &&& o->Ok_0.declarations == all
                                &&& o->Ok_0.total_declarations is None
                            }
                        },
                        _ => o == Err::<FileOutlineView, ErrorView>(
                            fault("get_document_symbols"@, h[2].1),
                        ),
                    }
                },
            }
        }
}

/// `lean_file_outline` tells the imports of the content that was replied and the entries
/// of all symbols that were replied, or as many of the first as are wanted, and then how
/// many there are.
pub proof fn lemma_outline_tells(path: Seq<char>, max: Option<usize>)
    ensures
        ends_well(
            outline_dialogue(path, max),
            hearing(),
            unheard(),
            outline_told(path, max),
        ),
{
    reveal_with_fuel(ends_well, 5);
    reveal_with_fuel(followed, 4);
}

// ---------------------------------------------------------------------------
// Hover, completions, diagnostics and code actions
// ---------------------------------------------------------------------------

/// The diagnostics that a reply holds: it is a list of them or has one.
pub open spec fn diagnostics_in(raw: JsonView) -> Seq<JsonView> {
    match raw {
        JsonView::Array(items) => items,
        _ => match items_member(raw, "diagnostics"@) {
            Some(items) => items,
            None => Seq::empty(),
        },
    }
}

/// The number before another; before 0 stands the largest.
pub open spec fn one_before(n: u32) -> u32 {
    if n == 0 {
        u32::MAX
    } else {
        (n - 1) as u32
    }
}

/// The number before another, and 0 for 0.
pub open spec fn before_or_zero(n: u32) -> u32 {
    if n == 0 {
        0
    } else {
        (n - 1) as u32
    }
}

/// How `lean_hover_info` is to end: with the text of the range that was replied, the
/// plain text that was replied, and all diagnostics at the place, in their order.
pub open spec fn hover_is_told(path: Seq<char>, line: u32, column: u32) -> spec_fn(
    Heard,
    HoverSaid,
) -> bool {
    |h: Heard, o: HoverSaid|
        {
            &&& read_first(h, path)
            &&& match content_heard(h) {
                None => o == Err::<HoverInfoView, ErrorView>(read_fault(h)),
                Some(content) => {
                    &&& h.len() >= 3
                    &&& h[2].0 == (RequestView::Hover {
                        path,
                        line: one_before(line),
                        column: one_before(column),
                    })
                    &&& match h[2].1 {
                        ReplyView::MaybeValue(Some(v)) => {
                            &&& h.len() >= 4
                            &&& h[3].0 == (RequestView::Diagnostics {
                                path,
                                start_line: None,
                                end_line: None,
                                bounded: false,
                            })
                            &&& o is Ok
                            &&& o->Ok_0.symbol == symbol_of(content, v.member("range"@))
                            &&& o->Ok_0.info == hover_text(v)
                            &&& match h[3].1 {
                                ReplyView::Value(raw) => {
                                    let at = diagnostics_in(raw).filter(
                                        |d: JsonView|
                                            covers(d, one_before(line), one_before(column))
                                                && (d.member("fullRange"@) is Some || d.member(
                                                "range"@,
                                            ) is Some),
                                    );
                                    &&& h.len() == 5
                                    &&& h[4].0 == (RequestView::SeverityNames {
                                        severities: at.map_values(
                                            |d: JsonView| (numbered_of(d)->0).severity,
                                        ),
                                    })
                                    &&& o->Ok_0.diagnostics.len() == at.len()
                                    &&& forall|i: int|
                                        0 <= i < at.len() ==> {
                                            let m = numbered_of(at[i])->0;
                                            let t = #[trigger] o->Ok_0.diagnostics[i];
                                            &&& t.message == m.message
                                            &&& t.line == m.line
                                            &&& t.column == m.column
                                            &&& h[4].1 matches ReplyView::Texts(names) ==> (i
                                                < names.len() ==> t.severity == names[i])
                                        }
                                },
                                _ => o->Ok_0.diagnostics.len() == 0,
                            }
                        },
                        ReplyView::MaybeValue(None) => o == Err::<HoverInfoView, ErrorView>(
                            ErrorView::NoHoverInfo { line: line as nat, column: column as nat },
                        ),
                        _ => o == Err::<HoverInfoView, ErrorView>(fault("get_hover"@, h[2].1)),
                    }
                },
            }
        }
}

/// The diagnostics at a place, with what each of them says.
proof fn lemma_messages_at(raw: JsonView, line: u32, column: u32)
    ensures
        ({
            let at = diagnostics_in(raw).filter(
                |d: JsonView|
                    covers(d, one_before(line), one_before(column)) && (d.member("fullRange"@)
                        is Some || d.member("range"@) is Some),
            );
            &&& messages_at(raw, line, column) == at.map_values(|d: JsonView| numbered_of(d)->0)
            &&& severities_of(messages_at(raw, line, column))
                == at.map_values(|d: JsonView| (numbered_of(d)->0).severity)
        }),
{
    let ds = diagnostics_in(raw);
    let there = |d: JsonView| covers(d, one_before(line), one_before(column));
    let ranged = |d: JsonView| d.member("fullRange"@) is Some || d.member("range"@) is Some;
    let both = |d: JsonView|
        covers(d, one_before(line), one_before(column)) && (d.member("fullRange"@) is Some
            || d.member("range"@) is Some);
    let image = |d: JsonView| numbered_of(d)->0;
    lemma_filter_map_is(ds.filter(there), |d: JsonView| numbered_of(d), ranged, image);
    lemma_filter_twice(ds, there, ranged, both);
    assert(raw_diagnostics(raw) == ds);
    assert(severities_of(ds.filter(both).map_values(image)) =~= ds.filter(
        both,
    ).map_values(|d: JsonView| (numbered_of(d)->0).severity));
}

/// Keeping twice keeps what passes both times.
pub proof fn lemma_filter_twice<A>(
    s: Seq<A>,
    one: spec_fn(A) -> bool,
    two: spec_fn(A) -> bool,
    both: spec_fn(A) -> bool,
)
    requires
        forall|a: A| #[trigger] both(a) <==> one(a) && two(a),
    ensures
        s.filter(one).filter(two) == s.filter(both),
    decreases s.len(),
{
    reveal(Seq::filter);
    if s.len() > 0 {
        lemma_filter_twice(s.drop_last(), one, two, both);
        assert(both(s.last()) <==> one(s.last()) && two(s.last()));
        if one(s.last()) {
            assert(s.drop_last().filter(one).push(s.last()).drop_last() =~= s.drop_last().filter(
                one,
            ));
        }
    }
}

/// `lean_hover_info` tells what was replied for its place.
pub proof fn lemma_hover_tells(path: Seq<char>, line: u32, column: u32)
    ensures
        ends_well(
            hover_dialogue(path, line, column),
            hearing(),
            unheard(),
            hover_is_told(path, line, column),
        ),
{
    assert forall|raw: JsonView|
        messages_hold(raw, line, column, #[trigger] messages_at(raw, line, column)) by {
        lemma_messages_at(raw, line, column);
    }
    reveal_with_fuel(ends_well, 7);
    reveal_with_fuel(followed, 4);
}

/// Whether some messages are those of the diagnostics at a place.
pub open spec fn messages_hold(raw: JsonView, line: u32, column: u32, ms: Seq<NumberedView>) ->
    bool {
    let at = diagnostics_in(raw).filter(
        |d: JsonView|
            covers(d, one_before(line), one_before(column)) && (d.member("fullRange"@) is Some
                || d.member("range"@) is Some),
    );
    &&& ms == at.map_values(|d: JsonView| numbered_of(d)->0)
    &&& severities_of(ms) == at.map_values(
        |d: JsonView| (numbered_of(d)->0).severity,
    )
}

/// How `lean_completions` is to end: with all items that were replied and have a label,
/// sorted by what is completed, or as many of the first as are wanted. Each bears its
/// label, its detail and the name of its kind.
pub open spec fn completions_are_told(
    path: Seq<char>,
    line: u32,
    column: u32,
    max: usize,
) -> spec_fn(Heard, CompletionsSaid) -> bool {
    |h: Heard, o: CompletionsSaid|
        {
            &&& read_first(h, path)
            &&& match content_heard(h) {
                None => o == Err::<CompletionsResultView, ErrorView>(read_fault(h)),
                Some(content) => {
                    &&& h.len() >= 3
                    &&& h[2].0 == (RequestView::Completions {
                        path,
                        line: one_before(line),
                        column: one_before(column),
                    })
                    &&& match h[2].1 {
                        ReplyView::Values(raw) => {
                            let found = labelled_items(raw);
                            &&& o is Ok
                            &&& found.len() == 0 ==> o->Ok_0.items.len() == 0
                            &&& found.len() > 0 ==> {
                                &&& h.len() == 4
                                &&& h[3].0 is KindNames
                                &&& h[3].0->kinds.len() == found.len()
                                &&& forall|i: int|
                                    0 <= i < found.len() ==> (#[trigger] h[3].0->kinds[i]
                                        == match int_member(found[i], "kind"@) {
                                        Some(k) => Some(k as i32),
                                        None => None,
                                    })
                                &&& sorted_from(
                                    found,
                                    h[3].1,
                                    prefix_of(content, line, column),
                                    max,
                                    o->Ok_0.items,
                                )
                            }
                        },
                        _ => o == Err::<CompletionsResultView, ErrorView>(
                            fault("get_completions"@, h[2].1),
                        ),
                    }
                },
            }
        }
}

/// The items that have a label.
pub open spec fn labelled_items(raw: Seq<JsonView>) -> Seq<JsonView> {
    raw.filter(|c: JsonView| text_member(c, "label"@) is Some)
}

/// Whether completions are the first of all those that some items stand for, sorted.
pub open spec fn sorted_from(
    found: Seq<JsonView>,
    names: ReplyView,
    prefix: Seq<char>,
    max: usize,
    items: Seq<CompletionItemView>,
) -> bool {
    exists|named: Seq<CompletionItemView>|
        {
            &&& #[trigger] all_named(found, names, named)
            &&& items == first_of(completions_sorted(named, prefix), max)
        }
}

/// As many of the first items as are wanted, or all.
pub open spec fn first_of<T>(s: Seq<T>, max: usize) -> Seq<T> {
    s.take(
        if max <= s.len() {
            max as int
        } else {
            s.len() as int
        },
    )
}

/// Whether completions bear the labels, the details and the kinds of some items.
pub open spec fn all_named(
    found: Seq<JsonView>,
    names: ReplyView,
    named: Seq<CompletionItemView>,
) -> bool {
    &&& named.len() == found.len()
    &&& forall|i: int|
        0 <= i < found.len() ==> {
            let item = #[trigger] named[i];
            &&& Some(item.label) == text_member(found[i], "label"@)
            &&& item.detail == text_member(found[i], "detail"@)
            &&& int_member(found[i], "kind"@) is None ==> item.kind is None
            &&& int_member(found[i], "kind"@) is Some ==> (names matches ReplyView::Names(ns) ==> (i
                < ns.len() ==> item.kind == ns[i]))
        }
}

/// The items that have a label, with what each of them says.
proof fn lemma_candidates_kept(raw: Seq<JsonView>)
    ensures
        candidates_hold(raw, candidates_of(raw)),
{
    let keep = |c: JsonView| text_member(c, "label"@) is Some;
    let image = |c: JsonView| candidate_of(c)->0;
    let kept = raw.filter(keep);
    lemma_filter_map_is(raw, |c: JsonView| candidate_of(c), keep, image);
    lemma_kept_holds(raw, keep);
    assert forall|i: int| 0 <= i < kept.len() implies Some(#[trigger] candidates_of(raw)[i])
        == candidate_of(kept[i]) by {
        assert(keep(kept[i]));
    }
}

/// Whether some candidates are those of the items that have a label.
pub open spec fn candidates_hold(raw: Seq<JsonView>, cs: Seq<CandidateView>) -> bool {
    let kept = labelled_items(raw);
    &&& cs.len() == kept.len()
    &&& forall|i: int| 0 <= i < kept.len() ==> Some(#[trigger] cs[i]) == candidate_of(kept[i])
}

/// `lean_completions` tells the items that were replied for its place, sorted.
pub proof fn lemma_completions_tells(path: Seq<char>, line: u32, column: u32, max: usize)
    ensures
        ends_well(
            completions_dialogue(path, line, column, max),
            hearing(),
            unheard(),
            completions_are_told(path, line, column, max),
        ),
{
    assert forall|raw: Seq<JsonView>| candidates_hold(raw, #[trigger] candidates_of(raw)) by {
        lemma_candidates_kept(raw);
    }
    assert forall|s: Seq<CompletionItemView>| #[trigger] at_most(s, max) == first_of(s, max) by {
        assert(at_most(s, max) =~= first_of(s, max));
    }
    assert forall|raw: Seq<JsonView>, r: ReplyView, prefix: Seq<char>| sorted_from(
        labelled_items(raw),
        r,
        prefix,
        max,
        #[trigger] at_most(
            completions_sorted(items_named(candidates_of(raw), r.names_told()), prefix),
            max,
        ),
    ) by {
        lemma_candidates_kept(raw);
        let cs = candidates_of(raw);
        let kept = labelled_items(raw);
        lemma_kept_holds(raw, |c: JsonView| text_member(c, "label"@) is Some);
        let named = items_named(cs, r.names_told());
        assert forall|i: int| 0 <= i < kept.len() implies ({
            let item = #[trigger] named[i];
            &&& Some(item.label) == text_member(kept[i], "label"@)
            &&& item.detail == text_member(kept[i], "detail"@)
            &&& int_member(kept[i], "kind"@) is None ==> item.kind is None
            &&& int_member(kept[i], "kind"@) is Some ==> (r matches ReplyView::Names(ns) ==> (i
                < ns.len() ==> item.kind == ns[i]))
        }) by {
            assert(Some(cs[i]) == candidate_of(kept[i]));
        }
        assert(all_named(kept, r, named));
    }
    reveal_with_fuel(ends_well, 6);
    reveal_with_fuel(followed, 4);
}

/// A line counted from 0, for one counted from 1.
pub open spec fn zero_based(line: Option<u32>) -> Option<u32> {
    match line {
        Some(n) => if n == 0 {
            Some(0)
        } else {
            Some((n - 1) as u32)
        },
        None => None,
    }
}

/// Whether the diagnostics of some lines (from 1) were asked for last, and are told:
/// the interactive ones as they were replied, the others with whether the build
/// succeeded, the messages that are wanted, and the files that failed.
pub open spec fn lines_told(
    h: Heard,
    o: DiagnosticsSaid,
    q: DiagnosticsQueryView,
    start: Option<u32>,
    end: Option<u32>,
) -> bool {
    if q.interactive {
        &&& h.last().0 == (RequestView::InteractiveDiagnostics {
            path: q.path,
            start_line: zero_based(start),
            end_line: zero_based(end),
        })
        &&& o == match h.last().1 {
            ReplyView::Values(diagnostics) => Ok::<DiagnosticsView, ErrorView>(
                DiagnosticsView::Interactive(InteractiveDiagnosticsResultView { diagnostics }),
            ),
            _ => Err(fault("get_interactive_diagnostics"@, h.last().1)),
        }
    } else {
        &&& h.last().0 == (RequestView::Diagnostics {
            path: q.path,
            start_line: zero_based(start),
            end_line: zero_based(end),
            bounded: true,
        })
        &&& match h.last().1 {
            ReplyView::Value(raw) => {
                let ds = match items_member(raw, "diagnostics"@) {
                    Some(ds) => ds,
                    None => Seq::empty(),
                };
                &&& o matches Ok(DiagnosticsView::Standard(v)) && {
                    &&& v.success == (raw.member("success"@) != Some(JsonView::Bool(false)))
                    &&& v.items == kept_messages(ds, failed_all(ds), q.severity)
                    &&& v.failed_dependencies == last_failed(failed_all(ds))
                }
            },
            _ => o == Err::<DiagnosticsView, ErrorView>(fault("get_diagnostics"@, h.last().1)),
        }
    }
}

/// How `lean_diagnostic_messages` is to end: with the diagnostics of the lines asked for,
/// or of the declaration's lines where one is named.
pub open spec fn diagnostics_told(q: DiagnosticsQueryView) -> spec_fn(
    Heard,
    DiagnosticsSaid,
) -> bool {
    |h: Heard, o: DiagnosticsSaid|
        {
            &&& h.len() >= 1 && h[0].0 == (RequestView::OpenFile { path: q.path })
            &&& if h[0].1 is Done {
                match q.declaration {
                    None => h.len() == 2 && lines_told(h, o, q, q.start_line, q.end_line),
                    Some(name) => {
                        &&& h.len() >= 2
                        &&& h[1].0 == (RequestView::Symbols { path: q.path })
                        &&& match h[1].1 {
                            ReplyView::Values(symbols) => match range_called(symbols, name) {
                                Some(lines) => h.len() == 3 && lines_told(
                                    h,
                                    o,
                                    q,
                                    Some(lines.0),
                                    Some(lines.1),
                                ),
                                None => o == Err::<DiagnosticsView, ErrorView>(
                                    ErrorView::DeclarationNotFound(name),
                                ),
                            },
                            _ => o == Err::<DiagnosticsView, ErrorView>(
                                fault("get_document_symbols"@, h[1].1),
                            ),
                        }
                    },
                }
            } else {
                o == Err::<DiagnosticsView, ErrorView>(fault("open_file"@, h[0].1))
            }
        }
}

/// `lean_diagnostic_messages` tells the diagnostics that were replied for its lines.
pub proof fn lemma_diagnostics_tells(q: DiagnosticsQueryView)
    ensures
        ends_well(diagnostics_dialogue(q), hearing(), unheard(), diagnostics_told(q)),
{
    reveal_with_fuel(ends_well, 5);
    reveal_with_fuel(followed, 4);
}

/// The request for the actions of a range.
pub open spec fn actions_request(path: Seq<char>, range: LspRange) -> RequestView {
    RequestView::CodeActions {
        path,
        from_line: range.0,
        from_column: range.1,
        to_line: range.2,
        to_column: range.3,
    }
}

/// The actions that were replied for the first `n` ranges, all of them in their order.
pub open spec fn actions_heard(h: Heard, n: nat) -> Seq<JsonView>
    decreases n,
{
    if n == 0 {
        Seq::empty()
    } else {
        actions_heard(h, (n - 1) as nat) + match h[(n + 1) as int].1 {
            ReplyView::Values(actions) => actions,
            _ => Seq::empty(),
        }
    }
}

/// Whether the actions of the first `n` ranges were asked for, and came.
pub open spec fn actions_came(h: Heard, path: Seq<char>, ranges: Seq<LspRange>, n: nat) -> bool {
    &&& h.len() >= 2 + n
    &&& forall|i: int|
        2 <= i < 2 + n ==> (#[trigger] h[i]).0 == actions_request(path, ranges[i - 2]) && h[i].1
            is Values
}

/// Whether an action is told: itself where it bears edits, and else what the language
/// server made of it.
pub open spec fn action_told(h: Heard, action: JsonView, shown: CodeActionView) -> bool {
    if action.member("edit"@) is Some {
        shown == action_of(action)
    } else {
        exists|j: int| #[trigger] resolved_at(h, j, action, shown)
    }
}

/// Whether request number `j` brought what is shown of an action.
pub open spec fn resolved_at(h: Heard, j: int, action: JsonView, shown: CodeActionView) -> bool {
    &&& 0 <= j < h.len()
    &&& h[j].0 == (RequestView::ResolveAction { action })
    &&& h[j].1 matches ReplyView::Value(v) && shown == action_of(v)
}

/// Whether some actions are told, one for one.
pub open spec fn all_told(h: Heard, actions: Seq<JsonView>, shown: Seq<CodeActionView>) -> bool {
    &&& shown.len() == actions.len()
    &&& forall|k: int| 0 <= k < shown.len() ==> action_told(h, actions[k], #[trigger] shown[k])
}

/// How the actions are to be told after they came.
pub open spec fn resolving_told(kept: Seq<JsonView>, t: Heard) -> spec_fn(Heard, ActionsSaid)
    -> bool {
    |h: Heard, o: ActionsSaid|
        {
            &&& h.len() >= t.len() && h.take(t.len() as int) == t
            &&& match o {
                Ok(v) => all_told(h, kept, v.actions),
                Err(e) => h.len() > t.len() && h.last().0 is ResolveAction && !(h.last().1
                    is Value) && e == fault("get_code_action_resolve"@, h.last().1),
            }
        }
}

/// What was told of an action stays so.
proof fn lemma_still_told(h: Heard, t: Heard, actions: Seq<JsonView>, shown: Seq<CodeActionView>)
    requires
        all_told(h, actions, shown),
        t.len() >= h.len(),
        t.take(h.len() as int) == h,
    ensures
        all_told(t, actions, shown),
{
    assert forall|k: int| 0 <= k < shown.len() implies action_told(
        t,
        actions[k],
        #[trigger] shown[k],
    ) by {
        assert(action_told(h, actions[k], shown[k]));
        if actions[k].member("edit"@) is None {
            let j = choose|j: int| #[trigger] resolved_at(h, j, actions[k], shown[k]);
            assert(t.take(h.len() as int)[j] == t[j]);
            assert(resolved_at(t, j, actions[k], shown[k]));
        }
    }
}

/// From each action on, what is told is what was replied.
proof fn lemma_resolving_tells(
    kept: Seq<JsonView>,
    i: nat,
    done: Seq<CodeActionView>,
    t: Heard,
    h: Heard,
)
    requires
        i <= kept.len(),
        h.len() >= t.len(),
        h.take(t.len() as int) == t,
        all_told(h, kept.take(i as int), done),
    ensures
        ends_well(resolve_from(kept, i, done), hearing(), h, resolving_told(kept, t)),
    decreases kept.len() - i,
{
    let good = resolving_told(kept, t);
    if i >= kept.len() {
        assert(kept.take(i as int) =~= kept);
    } else {
        let action = kept[i as int];
        assert(kept.take((i + 1) as int).drop_last() =~= kept.take(i as int));
        if action.member("edit"@) is Some {
            let more = done.push(action_of(action));
            assert forall|k: int| 0 <= k < more.len() implies action_told(
                h,
                kept.take((i + 1) as int)[k],
                #[trigger] more[k],
            ) by {
                if k < i {
                    assert(action_told(h, kept.take(i as int)[k], done[k]));
                }
            }
            lemma_resolving_tells(kept, i + 1, more, t, h);
        } else {
            let q = RequestView::ResolveAction { action };
            let k = action_resolved(kept, i, done);
            assert forall|r: ReplyView|
                ends_well(#[trigger] k(r), hearing(), h.push((q, r)), good) by {
                let h1 = h.push((q, r));
                assert(h1.take(h.len() as int) =~= h);
                assert(h1.take(t.len() as int) =~= h.take(t.len() as int));
                match r {
                    ReplyView::Value(v) => {
                        let more = done.push(action_of(v));
                        lemma_still_told(h, h1, kept.take(i as int), done);
                        assert(resolved_at(h1, h.len() as int, action, action_of(v)));
                        assert forall|k: int| 0 <= k < more.len() implies action_told(
                            h1,
                            kept.take((i + 1) as int)[k],
                            #[trigger] more[k],
                        ) by {
                            if k < i {
                                assert(action_told(h1, kept.take(i as int)[k], done[k]));
                            }
                        }
                        lemma_resolving_tells(kept, i + 1, more, t, h1);
                    },
                    _ => {},
                }
            }
        }
    }
}

/// How `lean_code_actions` is to end after the diagnostics came: of all actions that were
/// replied for the ranges, the first with each title is told.
pub open spec fn actions_kept_told(path: Seq<char>, ranges: Seq<LspRange>, t: Heard) -> spec_fn(
    Heard,
    ActionsSaid,
) -> bool {
    |h: Heard, o: ActionsSaid|
        {
            &&& h.len() >= 2 && h[0] == t[0] && h[1] == t[1]
            &&& match o {
                Ok(v) => {
                    &&& actions_came(h, path, ranges, ranges.len())
                    &&& all_told(
                        h,
                        with_actions(Seq::empty(), actions_heard(h, ranges.len())),
                        v.actions,
                    )
                },
                Err(e) => {
                    ||| h.last().0 is CodeActions && !(h.last().1 is Values) && e == fault(
                        "get_code_actions"@,
                        h.last().1,
                    )
                    ||| h.last().0 is ResolveAction && !(h.last().1 is Value) && e == fault(
                        "get_code_action_resolve"@,
                        h.last().1,
                    )
                },
            }
        }
}

/// What was replied for the ranges stays so.
proof fn lemma_still_heard(h: Heard, t: Heard, n: nat)
    requires
        h.len() >= 2 + n,
        t.len() >= h.len(),
        t.take(h.len() as int) == h,
    ensures
        actions_heard(t, n) == actions_heard(h, n),
    decreases n,
{
    if n > 0 {
        lemma_still_heard(h, t, (n - 1) as nat);
        assert(t.take(h.len() as int)[(n + 1) as int] == t[(n + 1) as int]);
    }
}

/// From each range on, what is told is what was replied.
proof fn lemma_collecting_tells(
    path: Seq<char>,
    ranges: Seq<LspRange>,
    i: nat,
    t: Heard,
    h: Heard,
)
    requires
        i <= ranges.len(),
        h.len() == 2 + i,
        h[0] == t[0],
        h[1] == t[1],
        actions_came(h, path, ranges, i),
    ensures
        ends_well(
            collect_from(path, ranges, i, with_actions(Seq::empty(), actions_heard(h, i))),
            hearing(),
            h,
            actions_kept_told(path, ranges, t),
        ),
    decreases ranges.len() - i,
{
    let good = actions_kept_told(path, ranges, t);
    let kept = with_actions(Seq::empty(), actions_heard(h, i));
    if i >= ranges.len() {
        assert(h.take(h.len() as int) =~= h);
        assert(kept.take(0) =~= Seq::empty());
        lemma_resolving_tells(kept, 0, Seq::empty(), h, h);
        let middle = resolving_told(kept, h);
        let d = resolve_from(kept, 0, Seq::empty());
        assert forall|s: Heard, o: ActionsSaid| #[trigger] middle(s, o) implies good(s, o) by {
            assert(s.take(h.len() as int)[0] == s[0]);
            assert(s.take(h.len() as int)[1] == s[1]);
            assert forall|j: int| 2 <= j < 2 + i implies #[trigger] s[j] == h[j] by {
                assert(s.take(h.len() as int)[j] == s[j]);
            }
            lemma_still_heard(h, s, i);
        }
        lemma_ends_both(d, hearing(), h, middle, middle, good);
    } else {
        let q = actions_request(path, ranges[i as int]);
        let k = actions_told(path, ranges, i, kept);
        assert forall|r: ReplyView| ends_well(#[trigger] k(r), hearing(), h.push((q, r)), good) by {
            let h1 = h.push((q, r));
            assert(h1.take(h.len() as int) =~= h);
            match r {
                ReplyView::Values(actions) => {
                    lemma_still_heard(h, h1, i);
                    lemma_actions_together(Seq::empty(), actions_heard(h, i), actions);
                    assert(actions_heard(h1, i + 1) == actions_heard(h, i) + actions);
                    lemma_collecting_tells(path, ranges, i + 1, t, h1);
                },
                _ => {},
            }
        }
    }
}

/// How `lean_code_actions` is to end.
pub open spec fn code_actions_told(path: Seq<char>, line: u32) -> spec_fn(
    Heard,
    ActionsSaid,
) -> bool {
    |h: Heard, o: ActionsSaid|
        {
            &&& h.len() >= 1 && h[0].0 == (RequestView::OpenFile { path })
            &&& if h[0].1 is Done {
                &&& h.len() >= 2
                &&& h[1].0 == (RequestView::Diagnostics {
                    path,
                    start_line: Some(before_or_zero(line)),
                    end_line: Some(before_or_zero(line)),
                    bounded: true,
                })
                &&& match h[1].1 {
                    ReplyView::Value(raw) => actions_kept_told(
                        path,
                        ranges_on(
                            match items_member(raw, "diagnostics"@) {
                                Some(ds) => ds,
                                None => Seq::empty(),
                            },
                            before_or_zero(line),
                        ),
                        h,
                    )(h, o),
                    _ => o == Err::<CodeActionsResultView, ErrorView>(
                        fault("get_diagnostics"@, h[1].1),
                    ),
                }
            } else {
                o == Err::<CodeActionsResultView, ErrorView>(fault("open_file"@, h[0].1))
            }
        }
}

/// `lean_code_actions` tells the actions that were replied for its line.
pub proof fn lemma_code_actions_tells(path: Seq<char>, line: u32)
    ensures
        ends_well(
            actions_dialogue(path, line),
            hearing(),
            unheard(),
            code_actions_told(path, line),
        ),
{
    let good = code_actions_told(path, line);
    let q0 = RequestView::OpenFile { path };
    let q1 = RequestView::Diagnostics {
        path,
        start_line: Some(before_or_zero(line)),
        end_line: Some(before_or_zero(line)),
        bounded: true,
    };
    let k0 = actions_opened(path, line);
    let k1 = actions_diagnosed(path, line);
    assert forall|r0: ReplyView|
        ends_well(#[trigger] k0(r0), hearing(), unheard().push((q0, r0)), good) by {
        let h0 = unheard().push((q0, r0));
        if r0 is Done {
            assert forall|r1: ReplyView|
                ends_well(#[trigger] k1(r1), hearing(), h0.push((q1, r1)), good) by {
                let h1 = h0.push((q1, r1));
                match r1 {
                    ReplyView::Value(raw) => {
                        let all = match items_member(raw, "diagnostics"@) {
                            Some(ds) => ds,
                            None => Seq::empty(),
                        };
                        let ranges = ranges_on(all, before_or_zero(line));
                        lemma_collecting_tells(path, ranges, 0, h1, h1);
                        let middle = actions_kept_told(path, ranges, h1);
                        assert forall|s: Heard, o: ActionsSaid| #[trigger]
                            middle(s, o) implies good(s, o) by {}
                        lemma_ends_both(k1(r1), hearing(), h1, middle, middle, good);
                    },
                    _ => {},
                }
            }
        }
    }
}

} // verus!
