//! `lean_references`: where the symbol at a place of a file is used.
use crate::error::{result_view, ErrorView, LeanToolError};
use crate::json::{int_at, text_member, views, Json, JsonView};
use crate::lists::{lemma_filter_map_next, lemma_take_all, lemma_views_push};
use crate::models::{
    all_views, ReferenceLocation, ReferenceLocationView, ReferencesResult, ReferencesResultView,
};
use crate::position::{before_of, from_one, number_before, one_based};
use crate::protocol::{
    begins, lsp_error, lsp_failure, name_at, name_texts, nth_name, Call, Dialogue, Reply, ReplyView,
    Request, RequestView, Turn, Waiting, Waits,
};
use crate::text::texts;
use vstd::prelude::*;
use vstd::string::*;

verus! {

/// What `lean_references` comes to.
pub type ReferencesSaid = Result<ReferencesResultView, ErrorView>;

/// A place where the symbol is used: the URI of the file and the range (from
/// 1).
pub struct PlaceView {
    pub uri: Seq<char>,
    pub line: i64,
    pub column: i64,
    pub end_line: i64,
    pub end_column: i64,
}

/// The place that a location of the language server stands for; none where it
/// has no URI or no range.
pub open spec fn place_of(location: JsonView) -> Option<PlaceView> {
    match (text_member(location, "uri"@), location.member("range"@)) {
        (Some(uri), Some(range)) => Some(
            PlaceView {
                uri,
                line: one_based(int_at(range, "start"@, "line"@, 0)) as i64,
                column: one_based(int_at(range, "start"@, "character"@, 0)) as i64,
                end_line: one_based(int_at(range, "end"@, "line"@, 0)) as i64,
                end_column: one_based(int_at(range, "end"@, "character"@, 0)) as i64,
            },
        ),
        _ => None,
    }
}

/// The places that some locations of the language server stand for.
pub open spec fn places_of(locations: Seq<JsonView>) -> Seq<PlaceView> {
    locations.filter_map(|l: JsonView| place_of(l))
}

/// A place where the symbol is used.
pub struct Place {
    pub uri: String,
    pub line: i64,
    pub column: i64,
    pub end_line: i64,
    pub end_column: i64,
}

impl View for Place {
    type V = PlaceView;

    open spec fn view(&self) -> PlaceView {
        PlaceView {
            uri: self.uri@,
            line: self.line,
            column: self.column,
            end_line: self.end_line,
            end_column: self.end_column,
        }
    }
}

/// The places that some locations of the language server stand for.
pub fn places(locations: &[Json]) -> (r: Vec<Place>)
    ensures
        all_views(r@) == places_of(views(locations@)),
{
    let ghost all = views(locations@);
    let ghost f = |l: JsonView| place_of(l);
    let mut out: Vec<Place> = Vec::new();
    proof {
        assert(all_views(out@) =~= all.take(0).filter_map(f));
    }
    for i in 0..locations.len()
        invariant
            all == views(locations@),
            f == (|l: JsonView| place_of(l)),
            all_views(out@) == all.take(i as int).filter_map(f),
    {
        let location = &locations[i];
        proof {
            lemma_filter_map_next(all, f, i as int);
            assert(all[i as int] == location@);
        }
        if let Some(uri) = location.text_member("uri") {
            if let Some(range) = location.get("range") {
                let ghost before = out@;
                out.push(
                    Place {
                        uri: uri.to_owned(),
                        line: from_one(range.int_at("start", "line")),
                        column: from_one(range.int_at("start", "character")),
                        end_line: from_one(range.int_at("end", "line")),
                        end_column: from_one(range.int_at("end", "character")),
                    },
                );
                proof {
                    lemma_views_push(before, out@.last());
                }
            }
        }
    }
    proof {
        lemma_take_all(all);
    }
    out
}

/// The URIs of some places.
pub open spec fn uris_of(places: Seq<PlaceView>) -> Seq<Seq<char>> {
    places.map_values(|p: PlaceView| p.uri)
}

/// The URIs of some places.
fn uris(places: &[Place]) -> (r: Vec<String>)
    ensures
        texts(r@) == uris_of(all_views(places@)),
{
    let mut out: Vec<String> = Vec::new();
    for i in 0..places.len()
        invariant
            texts(out@) == uris_of(all_views(places@)).take(i as int),
    {
        let ghost before = out@;
        out.push(places[i].uri.clone());
        proof {
            assert(texts(out@) =~= texts(before).push(places@[i as int].uri@));
            assert(uris_of(all_views(places@)).take(i + 1) =~= uris_of(all_views(places@)).take(
                i as int,
            ).push(places@[i as int].uri@));
        }
    }
    proof {
        lemma_take_all(uris_of(all_views(places@)));
    }
    out
}

/// The places with the paths of their files; a path that is not known is empty.
pub open spec fn located(
    places: Seq<PlaceView>,
    paths: Seq<Option<Seq<char>>>,
) -> Seq<ReferenceLocationView> {
    Seq::new(
        places.len(),
        |i: int|
            ReferenceLocationView {
                file_path: match name_at(paths, i) {
                    Some(p) => p,
                    None => Seq::empty(),
                },
                line: places[i].line,
                column: places[i].column,
                end_line: places[i].end_line,
                end_column: places[i].end_column,
            },
    )
}

/// The places with the paths of their files.
pub fn locate(places: &[Place], paths: &[Option<String>]) -> (r: Vec<ReferenceLocation>)
    ensures
        all_views(r@) == located(all_views(places@), name_texts(paths@)),
{
    let ghost all = located(all_views(places@), name_texts(paths@));
    let mut out: Vec<ReferenceLocation> = Vec::new();
    for i in 0..places.len()
        invariant
            all == located(all_views(places@), name_texts(paths@)),
            all_views(out@) == all.take(i as int),
    {
        let ghost before = out@;
        let file_path = match nth_name(paths, i) {
            Some(p) => p,
            None => String::new(),
        };
        out.push(
            ReferenceLocation {
                file_path,
                line: places[i].line,
                column: places[i].column,
                end_line: places[i].end_line,
                end_column: places[i].end_column,
            },
        );
        proof {
            lemma_views_push(before, out@.last());
            assert(out@.last()@ == all[i as int]);
            assert(all.take(i + 1) =~= all.take(i as int).push(all[i as int]));
        }
    }
    proof {
        lemma_take_all(all);
    }
    out
}

/// After the paths came.
pub open spec fn paths_told(places: Seq<PlaceView>) -> Waiting<ReferencesSaid> {
    |r: ReplyView|
        Dialogue::Finish(Ok(ReferencesResultView { items: located(places, r.names_told()) }))
}

/// After the locations came.
pub open spec fn locations_told() -> Waiting<ReferencesSaid> {
    |r: ReplyView|
        match r {
            ReplyView::Values(locations) => Dialogue::Ask(
                RequestView::UriPaths { uris: uris_of(places_of(locations)) },
                paths_told(places_of(locations)),
            ),
            _ => Dialogue::Finish(Err(lsp_failure("get_references"@, r.trouble()))),
        }
}

/// After the file was elaborated.
pub open spec fn references_elaborated(path: Seq<char>, line: u32, column: u32) -> Waiting<
    ReferencesSaid,
> {
    |r: ReplyView|
        if r is Value {
            Dialogue::Ask(
                RequestView::References {
                    path,
                    line: before_of(line),
                    column: before_of(column),
                    include_declaration: true,
                },
                locations_told(),
            )
        } else {
            Dialogue::Finish(Err(lsp_failure("get_diagnostics"@, r.trouble())))
        }
}

/// After the file was opened.
pub open spec fn references_opened(path: Seq<char>, line: u32, column: u32) -> Waiting<
    ReferencesSaid,
> {
    |r: ReplyView|
        if r is Done {
            Dialogue::Ask(
                RequestView::Diagnostics {
                    path,
                    start_line: None,
                    end_line: None,
                    bounded: false,
                },
                references_elaborated(path, line, column),
            )
        } else {
            Dialogue::Finish(Err(lsp_failure("open_file"@, r.trouble())))
        }
}

/// The whole of `lean_references`.
pub open spec fn references_dialogue(path: Seq<char>, line: u32, column: u32) -> Dialogue<
    ReferencesSaid,
> {
    Dialogue::Ask(RequestView::OpenFile { path }, references_opened(path, line, column))
}

/// `lean_references` at work.
pub enum ReferencesCall {
    /// Waits until the file is open.
    Opening { path: String, line: u32, column: u32 },
    /// Waits until the file is elaborated.
    Elaborating { path: String, line: u32, column: u32 },
    /// Waits for the locations.
    Asking,
    /// Waits for the paths.
    Locating { places: Vec<Place> },
}

impl Waits for ReferencesCall {
    type Out = Result<ReferencesResult, LeanToolError>;

    type Said = ReferencesSaid;

    open spec fn said(o: Self::Out) -> ReferencesSaid {
        result_view(o)
    }

    open spec fn valid(self) -> bool {
        true
    }

    open spec fn waiting(self) -> Waiting<ReferencesSaid> {
        match self {
            ReferencesCall::Opening { path, line, column } => references_opened(
                path@,
                line,
                column,
            ),
            ReferencesCall::Elaborating { path, line, column } => references_elaborated(
                path@,
                line,
                column,
            ),
            ReferencesCall::Asking => locations_told(),
            ReferencesCall::Locating { places } => paths_told(all_views(places@)),
        }
    }

    open spec fn admits(self, r: ReplyView) -> bool {
        true
    }
}

impl Call for ReferencesCall {
    fn accepts(&self, reply: &Reply) -> (r: bool) {
        true
    }

    fn resume(self, reply: Reply) -> (t: Turn<Self, Self::Out>) {
        match self {
            ReferencesCall::Opening { path, line, column } => match reply.done() {
                Ok(_) => Turn::Ask(
                    Request::Diagnostics {
                        path: path.clone(),
                        start_line: None,
                        end_line: None,
                        bounded: false,
                    },
                    ReferencesCall::Elaborating { path, line, column },
                ),
                Err(m) => Turn::Done(Err(lsp_error("open_file", m))),
            },
            ReferencesCall::Elaborating { path, line, column } => match reply.value() {
                Ok(_) => Turn::Ask(
                    Request::References {
                        path,
                        line: number_before(line),
                        column: number_before(column),
                        include_declaration: true,
                    },
                    ReferencesCall::Asking,
                ),
                Err(m) => Turn::Done(Err(lsp_error("get_diagnostics", m))),
            },
            ReferencesCall::Asking => match reply.values() {
                Ok(locations) => {
                    let places = places(&locations);
                    Turn::Ask(
                        Request::UriPaths { uris: uris(&places) },
                        ReferencesCall::Locating { places },
                    )
                },
                Err(m) => Turn::Done(Err(lsp_error("get_references", m))),
            },
            ReferencesCall::Locating { places } => Turn::Done(
                Ok(ReferencesResult { items: locate(&places, &reply.names_told()) }),
            ),
        }
    }
}

/// Where the symbol at a place of a file is used, its declaration included.
/// `line` and `column` count from 1.
pub fn handle_references(file_path: &str, line: u32, column: u32) -> (t: Turn<
    ReferencesCall,
    Result<ReferencesResult, LeanToolError>,
>)
    ensures
        begins(t, references_dialogue(file_path@, line, column)),
{
    let path = file_path.to_owned();
    Turn::Ask(
        Request::OpenFile { path: path.clone() },
        ReferencesCall::Opening { path, line, column },
    )
}

} // verus!
