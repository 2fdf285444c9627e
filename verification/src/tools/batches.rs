//! What the tools that do several things at once tell, in terms of what they were replied.
use crate::json::JsonView;
use crate::models::{BatchGoalPositionView, GoalStateView};
use crate::protocol::{ends_well, Dialogue, ReplyView, RequestView};
use crate::text::{byte_len, decimal_of, first_non_space, lines_of, trim_end_of};
use crate::tools::answers::{hearing, unheard, Heard};
use crate::tools::batch::{dispatch_dialogue, refusal, wants_client, wants_project};
use crate::tools::batch_goals::{
    content_came, content_of, content_said, file_open, files_dialogue, files_of, first_occurrences,
    lemma_first_occurrences, open_from, open_trouble, paths_of, place_dialogue, place_within,
    read_from, FileSaid, FilesSaid, PlaceSaid,
};
use crate::tools::findings::words_of;
use crate::tools::toolbox::{
    answer_dialogue, tool_named, tool_of, OutcomeView, SettingsView, Tool, ToolCall,
};
use vstd::prelude::*;

verus! {

// ---------------------------------------------------------------------------
// Calls in a batch
// ---------------------------------------------------------------------------

/// All tools work with a language server but those that search, build, profile or scan.
pub proof fn lemma_clients_wanted(tool: Tool)
    ensures
        !wants_client(tool) <==> tool == Tool::LocalSearch || tool == Tool::LeanSearch || tool
            == Tool::Loogle || tool == Tool::LeanFinder || tool == Tool::Build || tool
            == Tool::Profile || tool == Tool::ProjectHealth,
        wants_project(tool) <==> tool == Tool::Build || tool == Tool::Profile || tool
            == Tool::RunCode,
{
}

/// What a call is refused with: that there is no language server, where it works with one
/// and there is none; else that there is no project, where it works in one and there is
/// none; and a local search also where neither it nor the user names a root. No other call
/// is refused.
pub proof fn lemma_refusals(call: ToolCall, has_client: bool, project: Option<Seq<char>>)
    ensures
        refusal(call, has_client, project) == Some(
            "No LSP client available. Set a Lean project path first."@,
        ) || refusal(call, has_client, project) == Some("No Lean project path configured."@)
            || refusal(call, has_client, project) == Some(
            "No project path available for local search."@,
        ) || refusal(call, has_client, project) is None,
        !has_client && wants_client(tool_of(call)) ==> refusal(call, has_client, project) == Some(
            "No LSP client available. Set a Lean project path first."@,
        ),
        has_client && project is None && wants_project(tool_of(call)) ==> refusal(
            call,
            has_client,
            project,
        ) == Some("No Lean project path configured."@),
        project is None && (call matches ToolCall::LocalSearch(p) && p.project_root is None)
            ==> refusal(call, has_client, project) == Some(
            "No project path available for local search."@,
        ),
        has_client && project is Some ==> refusal(call, has_client, project) is None,
        !wants_client(tool_of(call)) && !wants_project(tool_of(call)) && (call
            matches ToolCall::LocalSearch(p) ==> p.project_root is Some) ==> refusal(
            call,
            has_client,
            project,
        ) is None,
{
}

/// One call of a batch: where its tool is known, its arguments are read, and it goes on as
/// on its own unless it is refused. Else it ends with what is wrong, and asks for no more.
pub proof fn lemma_dispatched(
    name: Seq<char>,
    arguments: JsonView,
    has_client: bool,
    project: Option<Seq<char>>,
    s: SettingsView,
    r: ReplyView,
)
    requires
        name != "lean_batch"@,
    ensures
        ({
            let d = dispatch_dialogue(name, arguments, has_client, project, s);
            match tool_named(name) {
                None => d == Dialogue::Finish(
                    Err::<OutcomeView, Seq<char>>("Unknown tool: "@ + name),
                ),
                Some(tool) => {
                    &&& d.requests(seq![r])[0] == (RequestView::Arguments { tool, arguments })
                    &&& r matches ReplyView::Failed(words) ==> d.after(seq![r])
                        == Dialogue::Finish(
                        Err::<OutcomeView, Seq<char>>("Invalid arguments: "@ + words),
                    )
                    &&& r matches ReplyView::Arguments(call) ==> (tool_of(call) == tool ==> d.after(
                        seq![r],
                    ) == match refusal(call, has_client, project) {
                        Some(words) => Dialogue::Finish(Err::<OutcomeView, Seq<char>>(words)),
                        None => answer_dialogue(call, s),
                    })
                },
            }
        }),
{
    let d = dispatch_dialogue(name, arguments, has_client, project, s);
    reveal_with_fuel(Dialogue::requests, 3);
    reveal_with_fuel(Dialogue::after, 3);
    let rs = seq![r];
    assert(rs[0] == r);
    assert(rs.skip(1).len() == 0);
}

// ---------------------------------------------------------------------------
// Goals at several places
// ---------------------------------------------------------------------------

/// What a request comes to that failed.
pub open spec fn lsp_fault(r: ReplyView) -> Seq<char> {
    "LSP error: "@ + words_of(r)
}

/// How the query of one place (from 1) is to end: with all goals at its column, or with
/// those at the beginning and at the end of its line where it has no column.
pub open spec fn place_told(
    path: Seq<char>,
    line: u32,
    column: Option<u32>,
    content: Seq<char>,
) -> spec_fn(Heard, PlaceSaid) -> bool {
    |h: Heard, o: PlaceSaid|
        {
            let lines = lines_of(content);
            if 1 <= line <= lines.len() {
                let text = lines[line - 1];
                match column {
                    Some(c) => if 1 <= c <= byte_len(text) + 1 {
                        &&& h.len() == 1
                        &&& h[0].0 == (RequestView::Goal {
                            path,
                            line: (line - 1) as u32,
                            column: (c - 1) as u32,
                        })
                        &&& match h[0].1 {
                            ReplyView::Texts(goals) => o is Ok && o->Ok_0.line_context == text
                                && o->Ok_0.goals == Some(goals) && o->Ok_0.goals_before is None
                                && o->Ok_0.goals_after is None,
                            _ => o is Err && o->Err_0 == lsp_fault(h[0].1),
                        }
                    } else {
                        h.len() == 0 && o is Err && o->Err_0 == "Column "@ + decimal_of(c as nat)
                            + " out of range (line has "@ + decimal_of(byte_len(text))
                            + " characters)"@
                    },
                    None => {
                        &&& h.len() == 2
                        &&& h[0].0 == (RequestView::Goal {
                            path,
                            line: (line - 1) as u32,
                            column: first_non_space(text) as u32,
                        })
                        &&& h[1].0 == (RequestView::Goal {
                            path,
                            line: (line - 1) as u32,
                            column: byte_len(trim_end_of(text)) as u32,
                        })
                        &&& match (h[0].1, h[1].1) {
                            (ReplyView::Texts(before), ReplyView::Texts(after)) => o is Ok
                                && o->Ok_0.line_context == text && o->Ok_0.goals is None
                                && o->Ok_0.goals_before == Some(before) && o->Ok_0.goals_after
                                == Some(after),
                            (ReplyView::Texts(_), _) => o is Err && o->Err_0 == lsp_fault(h[1].1),
                            _ => o is Err && o->Err_0 == lsp_fault(h[0].1),
                        }
                    },
                }
            } else {
                h.len() == 0 && o is Err && o->Err_0 == "Line "@ + decimal_of(line as nat)
                    + " out of range (file has "@ + decimal_of(lines.len()) + " lines)"@
            }
        }
}

/// The query of one place tells what was replied.
pub proof fn lemma_place_tells(
    path: Seq<char>,
    line: u32,
    column: Option<u32>,
    content: Seq<char>,
)
    ensures
        ends_well(
            place_dialogue(path, line, column, content),
            hearing(),
            unheard(),
            place_told(path, line, column, content),
        ),
{
    reveal_with_fuel(ends_well, 4);
}

/// The texts of a list stand in the order in which they first occur: the places of their
/// first occurrences are handed back.
pub proof fn lemma_first_in_order(s: Seq<Seq<char>>) -> (places: Seq<int>)
    ensures
        places.len() == first_occurrences(s).len(),
        forall|k: int|
            0 <= k < places.len() ==> 0 <= #[trigger] places[k] < s.len() && s[places[k]]
                == first_occurrences(s)[k] && forall|i: int|
                0 <= i < places[k] ==> #[trigger] s[i] != s[places[k]],
        forall|k: int, l: int| 0 <= k < l < places.len() ==> places[k] < places[l],
        forall|i: int| 0 <= i < s.len() ==> first_occurrences(s).contains(#[trigger] s[i]),
    decreases s.len(),
{
    lemma_first_occurrences(s);
    if s.len() == 0 {
        Seq::empty()
    } else {
        let init = s.drop_last();
        let before = lemma_first_in_order(init);
        let last = s.len() - 1;
        if first_occurrences(init).contains(s.last()) {
            assert forall|k: int| 0 <= k < before.len() implies 0 <= #[trigger] before[k] < s.len()
                && s[before[k]] == first_occurrences(s)[k] && forall|i: int|
                0 <= i < before[k] ==> #[trigger] s[i] != s[before[k]] by {
                assert forall|i: int| 0 <= i < before[k]
                    implies #[trigger] s[i] != s[before[k]] by {
                    assert(init[i] == s[i]);
                    assert(init[before[k]] == s[before[k]]);
                }
            }
            before
        } else {
            let places = before.push(last);
            assert forall|k: int| 0 <= k < places.len() implies 0 <= #[trigger] places[k] < s.len()
                && s[places[k]] == first_occurrences(s)[k] && forall|i: int|
                0 <= i < places[k] ==> #[trigger] s[i] != s[places[k]] by {
                assert forall|i: int| 0 <= i < places[k]
                    implies #[trigger] s[i] != s[places[k]] by {
                    assert(init[i] == s[i]);
                    if k < before.len() {
                        assert(places[k] == before[k]);
                        assert(init[before[k]] == s[before[k]]);
                    } else {
                        assert(first_occurrences(init).contains(init[i]));
                    }
                }
                if k < before.len() {
                    assert(places[k] == before[k]);
                }
            }
            places
        }
    }
}

/// What came of the file of a place is what came of the one with its path.
pub proof fn lemma_content_found(
    positions: Seq<BatchGoalPositionView>,
    contents: FilesSaid,
    i: int,
    k: int,
)
    requires
        0 <= i < positions.len(),
        contents.len() == files_of(positions).len(),
        0 <= k < files_of(positions).len(),
        files_of(positions)[k] == positions[i].file_path,
    ensures
        content_of(files_of(positions), contents, positions[i].file_path) == contents[k],
{
    let files = files_of(positions);
    lemma_first_occurrences(paths_of(positions));
    assert(files.contains(files[k]));
    files.index_of_first_ensures(files[k]);
}

/// Whether a file is told: why it was not opened, or what was read of it.
pub open spec fn file_told(h: Heard, file: Seq<char>, opened: ReplyView, said: FileSaid) -> bool {
    if opened is Done {
        exists|j: int| #[trigger] read_at(h, j, file, said)
    } else {
        said == Err::<Seq<char>, Seq<char>>(lsp_fault(opened))
    }
}

/// Whether request number `j` brought what is told of a file.
pub open spec fn read_at(h: Heard, j: int, file: Seq<char>, said: FileSaid) -> bool {
    &&& 0 <= j < h.len()
    &&& h[j].0 == (RequestView::FileContent { path: file })
    &&& said == match h[j].1 {
        ReplyView::Text(content) => Ok::<Seq<char>, Seq<char>>(content),
        _ => Err(lsp_fault(h[j].1)),
    }
}

/// How the reading of some files is to end: each is opened once, in their order, and each
/// that was opened is read.
pub open spec fn files_told(files: Seq<Seq<char>>) -> spec_fn(Heard, FilesSaid) -> bool {
    |h: Heard, o: FilesSaid|
        {
            &&& h.len() >= files.len()
            &&& o.len() == files.len()
            &&& forall|k: int|
                0 <= k < files.len() ==> {
                    &&& (#[trigger] h[k]).0 == (RequestView::OpenFile { path: files[k] })
                    &&& file_told(h, files[k], h[k].1, o[k])
                }
        }
}

/// What was read stays so.
proof fn lemma_still_read(h: Heard, t: Heard, file: Seq<char>, opened: ReplyView, said: FileSaid)
    requires
        file_told(h, file, opened, said),
        t.len() >= h.len(),
        t.take(h.len() as int) == h,
    ensures
        file_told(t, file, opened, said),
{
    if opened is Done {
        let j = choose|j: int| #[trigger] read_at(h, j, file, said);
        assert(t.take(h.len() as int)[j] == t[j]);
        assert(read_at(t, j, file, said));
    }
}

/// Whether all files were opened, and why those were not that were not.
pub open spec fn all_opened(
    h: Heard,
    files: Seq<Seq<char>>,
    troubles: Seq<Option<Seq<char>>>,
    n: nat,
) -> bool {
    &&& h.len() >= n
    &&& troubles.len() == n
    &&& forall|k: int|
        0 <= k < n ==> (#[trigger] h[k]).0 == (RequestView::OpenFile { path: files[k] })
            && troubles[k] == if h[k].1 is Done {
            None
        } else {
            Some(lsp_fault(h[k].1))
        }
}

/// From each file on, what is told is what was read.
proof fn lemma_reading_tells(
    files: Seq<Seq<char>>,
    troubles: Seq<Option<Seq<char>>>,
    i: nat,
    done: FilesSaid,
    h: Heard,
)
    requires
        i <= files.len(),
        done.len() == i,
        all_opened(h, files, troubles, files.len()),
        forall|k: int| 0 <= k < i ==> file_told(h, files[k], h[k].1, #[trigger] done[k]),
    ensures
        ends_well(read_from(files, troubles, i, done), hearing(), h, files_told(files)),
    decreases files.len() - i,
{
    let good = files_told(files);
    if i < files.len() {
        let file = files[i as int];
        let opened = h[i as int].1;
        match troubles[i as int] {
            Some(m) => {
                let more = done.push(Err(m));
                assert forall|k: int| 0 <= k < i + 1 implies file_told(
                    h,
                    files[k],
                    h[k].1,
                    #[trigger] more[k],
                ) by {
                    if k < i {
                        assert(more[k] == done[k]);
                    }
                }
                lemma_reading_tells(files, troubles, i + 1, more, h);
            },
            None => {
                let q = RequestView::FileContent { path: file };
                let f = content_came(files, troubles, i, done);
                assert forall|r: ReplyView|
                    ends_well(#[trigger] f(r), hearing(), h.push((q, r)), good) by {
                    let h1 = h.push((q, r));
                    assert(h1.take(h.len() as int) =~= h);
                    let more = done.push(content_said(r));
                    assert(read_at(h1, h.len() as int, file, content_said(r)));
                    assert forall|k: int| 0 <= k < i + 1 implies file_told(
                        h1,
                        files[k],
                        h1[k].1,
                        #[trigger] more[k],
                    ) by {
                        if k < i {
                            assert(more[k] == done[k]);
                            lemma_still_read(h, h1, files[k], h[k].1, done[k]);
                        }
                    }
                    lemma_reading_tells(files, troubles, i + 1, more, h1);
                }
            },
        }
    }
}

/// From each file on, it is opened.
proof fn lemma_opening_tells(
    files: Seq<Seq<char>>,
    troubles: Seq<Option<Seq<char>>>,
    i: nat,
    h: Heard,
)
    requires
        i <= files.len(),
        h.len() == i,
        all_opened(h, files, troubles, i),
    ensures
        ends_well(open_from(files, troubles, i), hearing(), h, files_told(files)),
    decreases files.len() - i,
{
    let good = files_told(files);
    if i < files.len() {
        let q = RequestView::OpenFile { path: files[i as int] };
        let f = file_open(files, troubles, i);
        assert forall|r: ReplyView| ends_well(#[trigger] f(r), hearing(), h.push((q, r)), good) by {
            lemma_opening_tells(files, troubles.push(open_trouble(r)), i + 1, h.push((q, r)));
        }
    } else {
        lemma_reading_tells(files, troubles, 0, Seq::empty(), h);
    }
}

/// Each file is opened once and read, and what came of it is told in its place.
pub proof fn lemma_files_tells(files: Seq<Seq<char>>)
    ensures
        ends_well(files_dialogue(files), hearing(), unheard(), files_told(files)),
{
    lemma_opening_tells(files, Seq::empty(), 0, unheard());
}

/// The files of some places are those that the places name, each once.
pub proof fn lemma_files_of_places(positions: Seq<BatchGoalPositionView>)
    ensures
        forall|i: int|
            0 <= i < positions.len() ==> files_of(positions).contains(
                (#[trigger] positions[i]).file_path,
            ),
        forall|k: int|
            0 <= k < files_of(positions).len() ==> exists|i: int|
                0 <= i < positions.len() && (#[trigger] positions[i]).file_path
                    == #[trigger] files_of(positions)[k],
        forall|k: int, l: int|
            0 <= k < l < files_of(positions).len() ==> #[trigger] files_of(positions)[k]
                != #[trigger] files_of(positions)[l],
{
    let paths = paths_of(positions);
    lemma_first_occurrences(paths);
    assert forall|i: int| 0 <= i < positions.len() implies files_of(positions).contains(
        (#[trigger] positions[i]).file_path,
    ) by {
        assert(paths[i] == positions[i].file_path);
    }
    assert forall|k: int| 0 <= k < files_of(positions).len() implies exists|i: int|
        0 <= i < positions.len() && (#[trigger] positions[i]).file_path
            == #[trigger] files_of(positions)[k] by {
        assert(paths.contains(files_of(positions)[k]));
        let i = choose|i: int| 0 <= i < paths.len() && paths[i] == files_of(positions)[k];
        assert(positions[i].file_path == files_of(positions)[k]);
    }
}

/// A place is queried in what was read of its file; where nothing was, it fails as the file
/// did, and nothing is asked for.
pub proof fn lemma_place_in_file(position: BatchGoalPositionView, file: FileSaid)
    ensures
        file matches Err(words) ==> place_within(position, file) == Dialogue::Finish(
            Err::<GoalStateView, Seq<char>>(words),
        ),
        file matches Ok(content) ==> ends_well(
            place_within(position, file),
            hearing(),
            unheard(),
            place_told(position.file_path, position.line, position.column, content),
        ),
{
    if let Ok(content) = file {
        lemma_place_tells(position.file_path, position.line, position.column, content);
    }
}

} // verus!
