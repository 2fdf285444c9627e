//! `lean_goals_batch`: the goals at several places at once.
use crate::lists::{lemma_take_all, lemma_views_push};
use crate::models::{
    all_views, opt_text, BatchGoalEntry, BatchGoalEntryView, BatchGoalPosition,
    BatchGoalPositionView, BatchGoalResult, BatchGoalResultView, GoalState, GoalStateView,
};
use crate::protocol::{
    begins, Call, Dialogue, Reply, ReplyView, Request, RequestView, Turn, Waiting, Waits,
};
use crate::text::{
    byte_len, decimal, decimal_of, first_non_space, glue, glue3, indent_bytes, lines, lines_of,
    same_text, str_bytes, texts, trim_end_of, trimmed_end_bytes,
};
use vstd::prelude::*;
use vstd::string::*;

verus! {

// ---------------------------------------------------------------------------
// One place
// ---------------------------------------------------------------------------

/// What comes of one place: its goals, or why there are none.
pub type PlaceSaid = Result<GoalStateView, Seq<char>>;

/// The failure of a request.
pub open spec fn lsp_words(r: ReplyView) -> Seq<char> {
    "LSP error: "@ + r.trouble()
}

/// After the goals at the column came.
pub open spec fn place_there(text: Seq<char>) -> Waiting<PlaceSaid> {
    |r: ReplyView|
        Dialogue::Finish(
            match r {
                ReplyView::Texts(goals) => Ok(
                    GoalStateView {
                        line_context: text,
                        goals: Some(goals),
                        goals_before: None,
                        goals_after: None,
                    },
                ),
                _ => Err(lsp_words(r)),
            },
        )
}

/// After the goals at both ends of the line came.
pub open spec fn place_behind(
    text: Seq<char>,
    before: Result<Seq<Seq<char>>, Seq<char>>,
) -> Waiting<PlaceSaid> {
    |r: ReplyView|
        Dialogue::Finish(
            match before {
                Ok(b) => match r {
                    ReplyView::Texts(a) => Ok(
                        GoalStateView {
                            line_context: text,
                            goals: None,
                            goals_before: Some(b),
                            goals_after: Some(a),
                        },
                    ),
                    _ => Err(lsp_words(r)),
                },
                Err(m) => Err(m),
            },
        )
}

/// After the goals at the beginning of the line came, or not: those at its end
/// are asked for either way.
pub open spec fn place_ahead(path: Seq<char>, lsp_line: u32, text: Seq<char>) -> Waiting<
    PlaceSaid,
> {
    |r: ReplyView|
        Dialogue::Ask(
            RequestView::Goal {
                path,
                line: lsp_line,
                column: byte_len(trim_end_of(text)) as u32,
            },
            place_behind(
                text,
                match r {
                    ReplyView::Texts(goals) => Ok(goals),
                    _ => Err(lsp_words(r)),
                },
            ),
        )
}

/// The goals at a place (from 1) of a file with a content.
pub open spec fn place_dialogue(
    path: Seq<char>,
    line: u32,
    column: Option<u32>,
    content: Seq<char>,
) -> Dialogue<PlaceSaid> {
    let lines = lines_of(content);
    if line == 0 || line > lines.len() {
        Dialogue::Finish(
            Err(
                "Line "@ + decimal_of(line as nat) + " out of range (file has "@ + decimal_of(
                    lines.len(),
                ) + " lines)"@,
            ),
        )
    } else {
        let text = lines[line - 1];
        match column {
            Some(c) => if c == 0 || c > byte_len(text) + 1 {
                Dialogue::Finish(
                    Err(
                        "Column "@ + decimal_of(c as nat) + " out of range (line has "@
                            + decimal_of(byte_len(text)) + " characters)"@,
                    ),
                )
            } else {
                Dialogue::Ask(
                    RequestView::Goal { path, line: (line - 1) as u32, column: (c - 1) as u32 },
                    place_there(text),
                )
            },
            None => Dialogue::Ask(
                RequestView::Goal {
                    path,
                    line: (line - 1) as u32,
                    column: first_non_space(text) as u32,
                },
                place_ahead(path, (line - 1) as u32, text),
            ),
        }
    }
}

/// One place of a batch at work.
pub enum PlaceCall {
    /// Waits for the goals at the column.
    There { text: String },
    /// Waits for the goals at the beginning of the line.
    Ahead { path: String, lsp_line: u32, text: String },
    /// Waits for the goals at the end of the line.
    Behind { text: String, before: Result<Vec<String>, String> },
}

/// What some goals say, or why there are none.
pub open spec fn goals_view(r: Result<Vec<String>, String>) -> Result<Seq<Seq<char>>, Seq<char>> {
    match r {
        Ok(v) => Ok(texts(v@)),
        Err(m) => Err(m@),
    }
}

/// What comes of one place.
pub open spec fn place_view(r: Result<GoalState, String>) -> PlaceSaid {
    match r {
        Ok(g) => Ok(g@),
        Err(m) => Err(m@),
    }
}

impl Waits for PlaceCall {
    type Out = Result<GoalState, String>;

    type Said = PlaceSaid;

    open spec fn said(o: Self::Out) -> PlaceSaid {
        place_view(o)
    }

    open spec fn valid(self) -> bool {
        true
    }

    open spec fn waiting(self) -> Waiting<PlaceSaid> {
        match self {
            PlaceCall::There { text } => place_there(text@),
            PlaceCall::Ahead { path, lsp_line, text } => place_ahead(path@, lsp_line, text@),
            PlaceCall::Behind { text, before } => place_behind(text@, goals_view(before)),
        }
    }

    open spec fn admits(self, r: ReplyView) -> bool {
        true
    }
}

/// The goals that a reply brings, or the failure.
fn goals_or_words(reply: Reply) -> (r: Result<Vec<String>, String>)
    ensures
        goals_view(r) == match reply@ {
            ReplyView::Texts(goals) => Ok::<_, Seq<char>>(goals),
            _ => Err(lsp_words(reply@)),
        },
{
    match reply.texts() {
        Ok(goals) => Ok(goals),
        Err(m) => Err(glue("LSP error: ", m.as_str())),
    }
}

impl Call for PlaceCall {
    fn accepts(&self, reply: &Reply) -> (r: bool) {
        true
    }

    fn resume(self, reply: Reply) -> (t: Turn<Self, Self::Out>) {
        match self {
            PlaceCall::There { text } => Turn::Done(
                match goals_or_words(reply) {
                    Ok(goals) => Ok(
                        GoalState {
                            line_context: text,
                            goals: Some(goals),
                            goals_before: None,
                            goals_after: None,
                        },
                    ),
                    Err(m) => Err(m),
                },
            ),
            PlaceCall::Ahead { path, lsp_line, text } => {
                let before = goals_or_words(reply);
                let column: u32 = trimmed_end_bytes(text.as_str()) as u32;
                Turn::Ask(
                    Request::Goal { path, line: lsp_line, column },
                    PlaceCall::Behind { text, before },
                )
            },
            PlaceCall::Behind { text, before } => Turn::Done(
                match before {
                    Ok(b) => match goals_or_words(reply) {
                        Ok(a) => Ok(
                            GoalState {
                                line_context: text,
                                goals: None,
                                goals_before: Some(b),
                                goals_after: Some(a),
                            },
                        ),
                        Err(m) => Err(m),
                    },
                    Err(m) => Err(m),
                },
            ),
        }
    }
}

/// The goals at a place (from 1) of a file with a content. Failures are told in
/// words.
pub fn query_single_goal(
    file_path: &str,
    line: u32,
    column: Option<u32>,
    content: &str,
) -> (t: Turn<
    PlaceCall,
    Result<GoalState, String>,
>)
    ensures
        begins(t, place_dialogue(file_path@, line, column, content@)),
{
    let lines = lines(content);
    proof {
        assert(texts(lines@).len() == lines@.len());
    }
    if line == 0 || line as usize > lines.len() {
        let mut m = glue3("Line ", decimal(line as u64).as_str(), " out of range (file has ");
        m.append(decimal(lines.len() as u64).as_str());
        m.append(" lines)");
        return Turn::Done(Err(m));
    }
    let text = lines[(line - 1) as usize].clone();
    proof {
        assert(texts(lines@)[line - 1] == text@);
    }
    let path = file_path.to_owned();
    let lsp_line: u32 = line - 1;
    match column {
        Some(c) => {
            let length: usize = str_bytes(text.as_str());
            if c == 0 || c as usize - 1 > length {
                let mut m = glue3(
                    "Column ",
                    decimal(c as u64).as_str(),
                    " out of range (line has ",
                );
                m.append(decimal(length as u64).as_str());
                m.append(" characters)");
                return Turn::Done(Err(m));
            }
            Turn::Ask(
                Request::Goal { path, line: lsp_line, column: c - 1 },
                PlaceCall::There { text },
            )
        },
        None => {
            let column: u32 = indent_bytes(text.as_str()) as u32;
            Turn::Ask(
                Request::Goal { path: path.clone(), line: lsp_line, column },
                PlaceCall::Ahead { path, lsp_line, text },
            )
        },
    }
}

// ---------------------------------------------------------------------------
// The files
// ---------------------------------------------------------------------------

/// The texts of a list, each once, in the order in which they first occur.
pub open spec fn first_occurrences(s: Seq<Seq<char>>) -> Seq<Seq<char>>
    decreases s.len(),
{
    if s.len() == 0 {
        s
    } else {
        let before = first_occurrences(s.drop_last());
        if before.contains(s.last()) {
            before
        } else {
            before.push(s.last())
        }
    }
}

/// Each text of a list is among its first occurrences, and no text twice.
pub proof fn lemma_first_occurrences(s: Seq<Seq<char>>)
    ensures
        forall|i: int| 0 <= i < s.len() ==> first_occurrences(s).contains(#[trigger] s[i]),
        forall|i: int|
            0 <= i < first_occurrences(s).len() ==> s.contains(#[trigger] first_occurrences(s)[i]),
        forall|i: int, j: int|
            0 <= i < j < first_occurrences(s).len() ==> #[trigger] first_occurrences(s)[i]
                != #[trigger] first_occurrences(s)[j],
    decreases s.len(),
{
    if s.len() > 0 {
        let init = s.drop_last();
        let before = first_occurrences(init);
        let all = first_occurrences(s);
        lemma_first_occurrences(init);
        assert forall|i: int| 0 <= i < s.len() implies all.contains(#[trigger] s[i]) by {
            if i < init.len() {
                assert(init[i] == s[i]);
                let k = choose|k: int| 0 <= k < before.len() && before[k] == s[i];
                assert(all[k] == s[i]);
            } else if !before.contains(s.last()) {
                assert(all[before.len() as int] == s.last());
            }
        }
        assert forall|i: int| 0 <= i < all.len() implies s.contains(#[trigger] all[i]) by {
            if i < before.len() {
                assert(all[i] == before[i]);
                let k = choose|k: int| 0 <= k < init.len() && init[k] == before[i];
                assert(s[k] == all[i]);
            } else {
                assert(s[s.len() - 1] == all[i]);
            }
        }
    }
}

/// The paths of some places.
pub open spec fn paths_of(positions: Seq<BatchGoalPositionView>) -> Seq<Seq<char>> {
    positions.map_values(|p: BatchGoalPositionView| p.file_path)
}

/// The files of some places, each once.
pub open spec fn files_of(positions: Seq<BatchGoalPositionView>) -> Seq<Seq<char>> {
    first_occurrences(paths_of(positions))
}

/// Whether a text is one of a list.
fn listed(v: &[String], s: &str) -> (r: bool)
    ensures
        r == texts(v@).contains(s@),
{
    for i in 0..v.len()
        invariant
            forall|j: int| 0 <= j < i ==> #[trigger] texts(v@)[j] != s@,
    {
        proof {
            assert(texts(v@)[i as int] == v@[i as int]@);
        }
        if same_text(v[i].as_str(), s) {
            return true;
        }
    }
    false
}

/// The files of some places, each once.
pub fn unique_files(positions: &[BatchGoalPosition]) -> (r: Vec<String>)
    ensures
        texts(r@) == files_of(all_views(positions@)),
{
    let ghost all = paths_of(all_views(positions@));
    let mut out: Vec<String> = Vec::new();
    proof {
        assert(texts(out@) =~= first_occurrences(all.take(0)));
    }
    for i in 0..positions.len()
        invariant
            all == paths_of(all_views(positions@)),
            texts(out@) == first_occurrences(all.take(i as int)),
    {
        let path = positions[i].file_path.as_str();
        proof {
            assert(all.take(i + 1).drop_last() =~= all.take(i as int));
            assert(all.take(i + 1).last() == path@);
        }
        if !listed(&out, path) {
            let ghost before = out@;
            out.push(path.to_owned());
            proof {
                assert(texts(out@) =~= texts(before).push(path@));
            }
        }
    }
    proof {
        lemma_take_all(all);
    }
    out
}

/// What came of a file: its content, or why there is none.
pub type FileSaid = Result<Seq<char>, Seq<char>>;

/// What came of the files, in their order.
pub type FilesSaid = Seq<FileSaid>;

/// What came of a file.
pub open spec fn file_view(r: Result<String, String>) -> FileSaid {
    match r {
        Ok(content) => Ok(content@),
        Err(m) => Err(m@),
    }
}

/// What came of some files.
pub open spec fn files_view(v: Seq<Result<String, String>>) -> FilesSaid {
    v.map_values(|r: Result<String, String>| file_view(r))
}

/// Why a file was not opened, if it was not.
pub open spec fn open_trouble(r: ReplyView) -> Option<Seq<char>> {
    if r is Done {
        None
    } else {
        Some(lsp_words(r))
    }
}

/// What came of a file that was opened, or why it was not read.
pub open spec fn content_said(r: ReplyView) -> FileSaid {
    match r {
        ReplyView::Text(content) => Ok(content),
        _ => Err(lsp_words(r)),
    }
}

/// After the content of a file came, or not.
pub open spec fn content_came(
    files: Seq<Seq<char>>,
    troubles: Seq<Option<Seq<char>>>,
    i: nat,
    done: FilesSaid,
) -> Waiting<FilesSaid>
    decreases files.len() - i, 0nat,
{
    |r: ReplyView|
        if i < files.len() {
            read_from(files, troubles, i + 1, done.push(content_said(r)))
        } else {
            Dialogue::Finish(done)
        }
}

/// Reads the files from number `i` on that are open; `troubles` tells of each why
/// it is not, if it is not, and `done` is what came of those before.
pub open spec fn read_from(
    files: Seq<Seq<char>>,
    troubles: Seq<Option<Seq<char>>>,
    i: nat,
    done: FilesSaid,
) -> Dialogue<FilesSaid>
    decreases files.len() - i, 1nat,
{
    if i < files.len() {
        match troubles[i as int] {
            Some(m) => read_from(files, troubles, i + 1, done.push(Err(m))),
            None => Dialogue::Ask(
                RequestView::FileContent { path: files[i as int] },
                content_came(files, troubles, i, done),
            ),
        }
    } else {
        Dialogue::Finish(done)
    }
}

/// After a file was opened, or not.
pub open spec fn file_open(
    files: Seq<Seq<char>>,
    troubles: Seq<Option<Seq<char>>>,
    i: nat,
) -> Waiting<FilesSaid>
    decreases files.len() - i, 0nat,
{
    |r: ReplyView|
        if i < files.len() {
            open_from(files, troubles.push(open_trouble(r)), i + 1)
        } else {
            Dialogue::Finish(Seq::empty())
        }
}

/// Opens the files from number `i` on, and then reads those that are open;
/// `troubles` tells of each file before why it was not opened, if it was not.
pub open spec fn open_from(
    files: Seq<Seq<char>>,
    troubles: Seq<Option<Seq<char>>>,
    i: nat,
) -> Dialogue<FilesSaid>
    decreases files.len() - i, 1nat,
{
    if i < files.len() {
        Dialogue::Ask(
            RequestView::OpenFile { path: files[i as int] },
            file_open(files, troubles, i),
        )
    } else {
        read_from(files, troubles, 0, Seq::empty())
    }
}

/// Opens each file once, and then reads those that could be opened.
pub open spec fn files_dialogue(files: Seq<Seq<char>>) -> Dialogue<FilesSaid> {
    open_from(files, Seq::empty(), 0)
}

/// The files of a batch on their way to being read.
pub enum FilesCall {
    /// Waits until a file is open.
    Opening { files: Vec<String>, troubles: Vec<Option<String>>, index: usize },
    /// Waits for the content of a file.
    Reading {
        files: Vec<String>,
        troubles: Vec<Option<String>>,
        index: usize,
        done: Vec<Result<String, String>>,
    },
}

/// The texts that some strings hold, where they are there.
pub open spec fn troubles_view(v: Seq<Option<String>>) -> Seq<Option<Seq<char>>> {
    v.map_values(|o: Option<String>| opt_text(o))
}

impl Waits for FilesCall {
    type Out = Vec<Result<String, String>>;

    type Said = FilesSaid;

    open spec fn said(o: Self::Out) -> FilesSaid {
        files_view(o@)
    }

    open spec fn valid(self) -> bool {
        match self {
            FilesCall::Opening { files, troubles, index } => index < files@.len()
                && troubles@.len() == index,
            FilesCall::Reading { files, troubles, index, .. } => index < files@.len()
                && troubles@.len() == files@.len(),
        }
    }

    open spec fn waiting(self) -> Waiting<FilesSaid> {
        match self {
            FilesCall::Opening { files, troubles, index } => file_open(
                texts(files@),
                troubles_view(troubles@),
                index as nat,
            ),
            FilesCall::Reading { files, troubles, index, done } => content_came(
                texts(files@),
                troubles_view(troubles@),
                index as nat,
                files_view(done@),
            ),
        }
    }

    open spec fn admits(self, r: ReplyView) -> bool {
        true
    }
}

impl FilesCall {
    /// Reads the next file that is open.
    fn read(
        files: Vec<String>,
        troubles: Vec<Option<String>>,
        index: usize,
        done: Vec<Result<String, String>>,
    ) -> (t: Turn<FilesCall, Vec<Result<String, String>>>)
        requires
            index <= files@.len(),
            troubles@.len() == files@.len(),
        ensures
            begins(
                t,
                read_from(
                    texts(files@),
                    troubles_view(troubles@),
                    index as nat,
                    files_view(done@),
                ),
            ),
        decreases files@.len() - index,
    {
        if index < files.len() {
            proof {
                assert(texts(files@)[index as int] == files@[index as int]@);
                assert(troubles_view(troubles@)[index as int] == opt_text(
                    troubles@[index as int],
                ));
            }
            match &troubles[index] {
                Some(m) => {
                    let mut done = done;
                    let ghost before = done@;
                    done.push(Err(m.clone()));
                    proof {
                        assert(files_view(done@) =~= files_view(before).push(Err(m@)));
                    }
                    FilesCall::read(files, troubles, index + 1, done)
                },
                None => Turn::Ask(
                    Request::FileContent { path: files[index].clone() },
                    FilesCall::Reading { files, troubles, index, done },
                ),
            }
        } else {
            Turn::Done(done)
        }
    }

    /// Opens the next file.
    fn open(files: Vec<String>, troubles: Vec<Option<String>>, index: usize) -> (t: Turn<
        FilesCall,
        Vec<Result<String, String>>,
    >)
        requires
            index <= files@.len(),
            troubles@.len() == index,
        ensures
            begins(t, open_from(texts(files@), troubles_view(troubles@), index as nat)),
    {
        if index < files.len() {
            proof {
                assert(texts(files@)[index as int] == files@[index as int]@);
            }
            Turn::Ask(
                Request::OpenFile { path: files[index].clone() },
                FilesCall::Opening { files, troubles, index },
            )
        } else {
            let done: Vec<Result<String, String>> = Vec::new();
            proof {
                assert(files_view(done@) =~= Seq::empty());
            }
            FilesCall::read(files, troubles, 0, done)
        }
    }
}

impl Call for FilesCall {
    fn accepts(&self, reply: &Reply) -> (r: bool) {
        true
    }

    fn resume(self, reply: Reply) -> (t: Turn<Self, Self::Out>) {
        match self {
            FilesCall::Opening { files, troubles, index } => {
                assert(index < files.len());
                let trouble = match reply.done() {
                    Ok(_) => None,
                    Err(m) => Some(glue("LSP error: ", m.as_str())),
                };
                let mut troubles = troubles;
                let ghost before = troubles@;
                troubles.push(trouble);
                proof {
                    assert(troubles_view(troubles@) =~= troubles_view(before).push(
                        open_trouble(reply@),
                    ));
                }
                FilesCall::open(files, troubles, index + 1)
            },
            FilesCall::Reading { files, troubles, index, done } => {
                assert(index < files.len());
                let content = match reply.text() {
                    Ok(content) => Ok(content),
                    Err(m) => Err(glue("LSP error: ", m.as_str())),
                };
                let mut done = done;
                let ghost before = done@;
                done.push(content);
                proof {
                    assert(files_view(done@) =~= files_view(before).push(content_said(reply@)));
                }
                FilesCall::read(files, troubles, index + 1, done)
            },
        }
    }
}

/// Opens each file of a batch once, and then reads those that could be opened.
/// What came of each stands in the order of [`unique_files`]: its content, or why
/// there is none. A batch of no places has no files.
pub fn handle_lean_goals_batch(positions: &[BatchGoalPosition]) -> (t: Turn<
    FilesCall,
    Vec<Result<String, String>>,
>)
    ensures
        begins(t, files_dialogue(files_of(all_views(positions@)))),
{
    let none: Vec<Option<String>> = Vec::new();
    proof {
        assert(troubles_view(none@) =~= Seq::empty());
    }
    FilesCall::open(unique_files(positions), none, 0)
}

// ---------------------------------------------------------------------------
// All places
// ---------------------------------------------------------------------------

/// What came of a file, out of what came of some files.
pub open spec fn content_of(
    files: Seq<Seq<char>>,
    contents: FilesSaid,
    path: Seq<char>,
) -> FileSaid {
    contents[files.index_of_first(path)->Some_0]
}

/// Queries one place, where its file was read; else it fails as the file did.
pub open spec fn place_within(
    position: BatchGoalPositionView,
    content: FileSaid,
) -> Dialogue<PlaceSaid> {
    match content {
        Ok(content) => place_dialogue(
            position.file_path,
            position.line,
            position.column,
            content,
        ),
        Err(m) => Dialogue::Finish(Err(m)),
    }
}

/// Begins the query of one place of a batch, once its files were read or were not.
pub fn query_place(
    position: &BatchGoalPosition,
    files: &[String],
    contents: &[Result<String, String>],
) -> (t: Turn<PlaceCall, Result<GoalState, String>>)
    requires
        files@.len() == contents@.len(),
        texts(files@).contains(position.file_path@),
    ensures
        begins(
            t,
            place_within(
                position@,
                content_of(texts(files@), files_view(contents@), position.file_path@),
            ),
        ),
{
    let path = position.file_path.as_str();
    let ghost all = texts(files@);
    let mut i: usize = 0;
    while i < files.len() && !same_text(files[i].as_str(), path)
        invariant
            i <= files@.len(),
            all == texts(files@),
            all.contains(path@),
            forall|j: int| 0 <= j < i ==> #[trigger] all[j] != path@,
        decreases files@.len() - i,
    {
        proof {
            assert(all[i as int] == files@[i as int]@);
        }
        i = i + 1;
    }
    proof {
        let k = choose|k: int| 0 <= k < all.len() && all[k] == path@;
        assert(k >= i);
        assert(all[i as int] == files@[i as int]@);
        all.index_of_first_ensures(path@);
        assert(all.index_of_first(path@) == Some(i as int));
        assert(files_view(contents@)[i as int] == file_view(contents@[i as int]));
    }
    match &contents[i] {
        Ok(content) => query_single_goal(
            path,
            position.line,
            position.column,
            content.as_str(),
        ),
        Err(m) => Turn::Done(Err(m.clone())),
    }
}

/// What the batch tells of one place.
pub open spec fn entry_of(position: BatchGoalPositionView, res: PlaceSaid) -> BatchGoalEntryView {
    match res {
        Ok(g) => BatchGoalEntryView { position, result: Some(g), error: None },
        Err(m) => BatchGoalEntryView { position, result: None, error: Some(m) },
    }
}

/// What the batch tells: one entry for each place, in their order.
pub open spec fn entries_of(
    positions: Seq<BatchGoalPositionView>,
    results: Seq<PlaceSaid>,
) -> Seq<BatchGoalEntryView> {
    Seq::new(
        if positions.len() <= results.len() {
            positions.len()
        } else {
            results.len()
        },
        |i: int| entry_of(positions[i], results[i]),
    )
}

/// However many places fail, each has its entry: in its place, with its goals or
/// with why there are none.
pub proof fn lemma_each_place_told(
    positions: Seq<BatchGoalPositionView>,
    results: Seq<PlaceSaid>,
)
    requires
        positions.len() == results.len(),
    ensures
        entries_of(positions, results).len() == positions.len(),
        forall|i: int|
            0 <= i < positions.len() ==> {
                let entry = #[trigger] entries_of(positions, results)[i];
                &&& entry.position == positions[i]
                &&& entry.result is Some <==> results[i] is Ok
                &&& entry.error is Some <==> results[i] is Err
                &&& results[i] matches Ok(g) ==> entry.result == Some(g)
                &&& results[i] matches Err(m) ==> entry.error == Some(m)
            },
{
}

/// What came of some places.
pub open spec fn places_view(v: Seq<Result<GoalState, String>>) -> Seq<PlaceSaid> {
    v.map_values(|r: Result<GoalState, String>| place_view(r))
}

/// What the batch tells, once all places were queried: one entry for each, in
/// their order, with its goals or why there are none.
pub fn assemble(positions: &[BatchGoalPosition], results: Vec<Result<GoalState, String>>) -> (r:
    BatchGoalResult)
    requires
        positions@.len() == results@.len(),
    ensures
        r@ == (BatchGoalResultView {
            items: entries_of(all_views(positions@), places_view(results@)),
        }),
{
    let ghost all = entries_of(all_views(positions@), places_view(results@));
    let mut items: Vec<BatchGoalEntry> = Vec::new();
    let mut i: usize = 0;
    for res in it: results
        invariant
            i == it.index(),
            positions@.len() == it.seq().len(),
            all == entries_of(all_views(positions@), places_view(it.seq())),
            all_views(items@) == all.take(i as int),
    {
        let ghost before = items@;
        proof {
            assert(places_view(it.seq())[i as int] == place_view(res));
            assert(i < positions.len());
        }
        let position = BatchGoalPosition {
            file_path: positions[i].file_path.clone(),
            line: positions[i].line,
            column: positions[i].column,
        };
        let entry = match res {
            Ok(g) => BatchGoalEntry { position, result: Some(g), error: None },
            Err(m) => BatchGoalEntry { position, result: None, error: Some(m) },
        };
        items.push(entry);
        proof {
            lemma_views_push(before, entry);
            assert(entry@ == all[i as int]);
            assert(all.take(i + 1) =~= all.take(i as int).push(all[i as int]));
        }
        i = i + 1;
    }
    proof {
        lemma_take_all(all);
    }
    BatchGoalResult { items }
}

} // verus!
